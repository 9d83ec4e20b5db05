use vstd::prelude::*;
use crate::config::GrabError;
use crate::order::{
    comps_lt, comps_order, is_strict_total, lemma_between_extends, lemma_comps_order,
    lemma_prefix_first, lemma_sorted_unique, lemma_text_order, lex_lt_from, str_less,
    strictly_sorted, text_order,
};
use crate::paths::{path_components, split_components, strip_base, strip_base_of, texts};

verus! {

/// Views of a list of component lists.
pub open spec fn entry_views(v: Seq<Vec<String>>) -> Seq<Seq<Seq<char>>> {
    v.map_values(|e: Vec<String>| texts(e@))
}

/// The components of `f` relative to `base` (none when `f` is not below it).
pub open spec fn rel_components(base: Seq<char>, f: Seq<char>) -> Seq<Seq<char>> {
    match strip_base(base, f) {
        Some(r) => path_components(r),
        None => seq![],
    }
}

/// The first `k` components of `f` relative to `base`: `f` itself when `k` is
/// its depth, one of its ancestor directories when `k` is smaller.
pub open spec fn rel_prefix(base: Seq<char>, f: Seq<char>, k: int) -> Seq<Seq<char>> {
    rel_components(base, f).take(k)
}

/// `e` is one of the files, or one of their ancestor directories below `base`.
pub open spec fn is_tree_entry(base: Seq<char>, files: Seq<Seq<char>>, e: Seq<Seq<char>>) -> bool {
    exists|i: int, k: int|
        0 <= i < files.len() && 1 <= k <= rel_components(base, files[i]).len() && e
            == #[trigger] rel_prefix(base, files[i], k)
}

/// Every file lies at or below `base`.
pub open spec fn all_under(base: Seq<char>, files: Seq<Seq<char>>) -> bool {
    forall|i: int| 0 <= i < files.len() ==> (#[trigger] strip_base(base, files[i])) is Some
}

/// `path` is the first of `files` that does not lie at or below `base`.
pub open spec fn first_outside(base: Seq<char>, files: Seq<Seq<char>>, path: Seq<char>) -> bool {
    exists|i: int|
        0 <= i < files.len() && files[i] == path && strip_base(base, path) is None && forall|j: int|
            0 <= j < i ==> (#[trigger] strip_base(base, files[j])) is Some
}

/// `es` lists exactly the tree entries of `files`, in path order, each once.
pub open spec fn is_tree_listing(
    base: Seq<char>,
    files: Seq<Seq<char>>,
    es: Seq<Seq<Seq<char>>>,
) -> bool {
    &&& strictly_sorted(es, comps_order())
    &&& forall|e: Seq<Seq<char>>| es.contains(e) <==> is_tree_entry(base, files, e)
}

/// The tree listing of `files` below `base` (there is at most one).
pub open spec fn tree_listing(base: Seq<char>, files: Seq<Seq<char>>) -> Seq<Seq<Seq<char>>> {
    choose|es: Seq<Seq<Seq<char>>>| is_tree_listing(base, files, es)
}

/// A tree listing is determined by the files.
pub proof fn lemma_tree_listing_unique(base: Seq<char>, files: Seq<Seq<char>>, es: Seq<Seq<Seq<char>>>)
    requires
        is_tree_listing(base, files, es),
    ensures
        tree_listing(base, files) == es,
{
    let other = tree_listing(base, files);
    assert(is_tree_listing(base, files, other));
    lemma_comps_order();
    lemma_sorted_unique(other, es, comps_order());
}

/// Some entry of `es` lies strictly below `e`: `e` is a directory.
pub open spec fn has_extension(es: Seq<Seq<Seq<char>>>, e: Seq<Seq<char>>) -> bool {
    exists|j: int|
        0 <= j < es.len() && e.len() < es[j].len() && e == #[trigger] es[j].subrange(
            0,
            e.len() as int,
        )
}

/// Two spaces per level.
pub open spec fn indent(d: int) -> Seq<char>
    decreases d,
{
    if d <= 0 {
        seq![]
    } else {
        indent(d - 1) + seq![' ', ' ']
    }
}

/// The line of entry `e`: indentation, a `- ` marker, the last component and,
/// for a directory, a trailing `/`.
pub open spec fn entry_line(e: Seq<Seq<char>>, is_dir: bool) -> Seq<char> {
    indent(e.len() - 1) + seq!['-', ' '] + e.last() + (if is_dir {
        seq!['/']
    } else {
        seq![]
    }) + seq!['\n']
}

/// The line of the `j`-th entry of a listing, a directory when entries lie
/// below it.
pub open spec fn line_at(es: Seq<Seq<Seq<char>>>, j: int) -> Seq<char> {
    if es[j].len() == 0 {
        seq![]
    } else {
        entry_line(es[j], has_extension(es, es[j]))
    }
}

/// The lines of the first `n` entries of a listing.
pub open spec fn render_upto(es: Seq<Seq<Seq<char>>>, n: int) -> Seq<char>
    decreases n,
{
    if n <= 0 {
        seq![]
    } else {
        render_upto(es, n - 1) + line_at(es, n - 1)
    }
}

/// The text of a tree listing: one line per entry, in order.
pub open spec fn render_entries(es: Seq<Seq<Seq<char>>>) -> Seq<char> {
    render_upto(es, es.len() as int)
}

fn copy_texts(v: &Vec<String>) -> (r: Vec<String>)
    ensures
        r@ == v@,
{
    let mut r: Vec<String> = Vec::new();
    let mut i: usize = 0;
    while i < v.len()
        invariant
            i <= v.len(),
            r@ == v@.subrange(0, i as int),
        decreases v.len() - i,
    {
        r.push(v[i].clone());
        assert(r@ =~= v@.subrange(0, i + 1));
        i = i + 1;
    }
    assert(r@ =~= v@);
    r
}

fn comps_equal(a: &Vec<String>, b: &Vec<String>) -> (r: bool)
    ensures
        r == (texts(a@) == texts(b@)),
{
    if a.len() != b.len() {
        assert(texts(a@).len() != texts(b@).len());
        return false;
    }
    let mut i: usize = 0;
    while i < a.len()
        invariant
            a.len() == b.len(),
            i <= a.len(),
            forall|j: int| 0 <= j < i ==> a@[j]@ == b@[j]@,
        decreases a.len() - i,
    {
        if !(a[i] == b[i]) {
            assert(texts(a@)[i as int] != texts(b@)[i as int]);
            return false;
        }
        i = i + 1;
    }
    assert(texts(a@) =~= texts(b@));
    true
}

fn comps_less(a: &Vec<String>, b: &Vec<String>) -> (r: bool)
    ensures
        r == comps_lt(texts(a@), texts(b@)),
{
    let ghost ta = texts(a@);
    let ghost tb = texts(b@);
    let mut i: usize = 0;
    while i < a.len() && i < b.len()
        invariant
            i <= a.len(),
            i <= b.len(),
            ta == texts(a@),
            tb == texts(b@),
            lex_lt_from(ta, tb, i as int, text_order()) == comps_lt(ta, tb),
        decreases a.len() - i,
    {
        if !(a[i] == b[i]) {
            assert(ta[i as int] != tb[i as int]);
            return str_less(a[i].as_str(), b[i].as_str());
        }
        assert(ta[i as int] == tb[i as int]);
        i = i + 1;
    }
    i >= a.len() && i < b.len()
}

fn is_proper_prefix(a: &Vec<String>, b: &Vec<String>) -> (r: bool)
    ensures
        r == (texts(a@).len() < texts(b@).len() && texts(a@) == texts(b@).subrange(
            0,
            texts(a@).len() as int,
        )),
{
    if a.len() >= b.len() {
        return false;
    }
    let mut i: usize = 0;
    while i < a.len()
        invariant
            a.len() < b.len(),
            i <= a.len(),
            forall|j: int| 0 <= j < i ==> a@[j]@ == b@[j]@,
        decreases a.len() - i,
    {
        if !(a[i] == b[i]) {
            assert(texts(a@)[i as int] != texts(b@).subrange(0, a.len() as int)[i as int]);
            return false;
        }
        i = i + 1;
    }
    assert(texts(a@) =~= texts(b@).subrange(0, a.len() as int));
    true
}

/// Adds `e` to the ordered, repeat-free list `es`, unless it is there already.
fn insert_entry(es: &mut Vec<Vec<String>>, e: Vec<String>)
    requires
        strictly_sorted(entry_views(old(es)@), comps_order()),
    ensures
        strictly_sorted(entry_views(final(es)@), comps_order()),
        forall|x: Seq<Seq<char>>|
            entry_views(final(es)@).contains(x) <==> (entry_views(old(es)@).contains(x) || x
                == texts(e@)),
{
    proof {
        lemma_comps_order();
    }
    let ghost lt = comps_order();
    let ghost x = texts(e@);
    let ghost ev = entry_views(es@);
    let mut lo: usize = 0;
    let mut hi: usize = es.len();
    while lo < hi
        invariant
            lo <= hi <= es.len(),
            ev == entry_views(es@),
            strictly_sorted(ev, lt),
            lt == comps_order(),
            is_strict_total(lt),
            x == texts(e@),
            forall|k: int| 0 <= k < lo ==> #[trigger] lt(ev[k], x),
            forall|k: int| hi <= k < ev.len() ==> !#[trigger] lt(ev[k], x),
        decreases hi - lo,
    {
        let mid = lo + (hi - lo) / 2;
        assert(ev[mid as int] == texts(es@[mid as int]@));
        if comps_less(&es[mid], &e) {
            assert(lt(ev[mid as int], x));
            assert forall|k: int| 0 <= k < mid + 1 implies #[trigger] lt(ev[k], x) by {
                if k < mid {
                    assert(lt(ev[k], ev[mid as int]));
                }
            }
            lo = mid + 1;
        } else {
            assert forall|k: int| mid <= k < ev.len() implies !#[trigger] lt(ev[k], x) by {
                if k > mid && lt(ev[k], x) {
                    assert(lt(ev[mid as int], ev[k]));
                }
            }
            hi = mid;
        }
    }
    let j = lo;
    if j < es.len() && comps_equal(&es[j], &e) {
        assert(ev[j as int] == x);
        return;
    }
    es.insert(j, e);
    proof {
        let nv = entry_views(es@);
        assert(nv =~= ev.insert(j as int, x));
        if j < ev.len() {
            assert(ev[j as int] != x);
            assert(!lt(ev[j as int], x));
            assert(lt(x, ev[j as int]));
        }
        assert forall|a: int, b: int| 0 <= a < b < nv.len() implies #[trigger] lt(nv[a], nv[b]) by {
            if b < j {
                assert(lt(ev[a], ev[b]));
            } else if b == j {
                assert(lt(ev[a], x));
            } else if a < j {
                assert(lt(ev[a], ev[b - 1]));
            } else if a == j {
                if b - 1 > j {
                    assert(lt(ev[j as int], ev[b - 1]));
                }
                assert(lt(x, ev[b - 1]));
            } else {
                assert(lt(ev[a - 1], ev[b - 1]));
            }
        }
        assert forall|y: Seq<Seq<char>>| nv.contains(y) <==> (ev.contains(y) || y == x) by {
            if nv.contains(y) {
                let p = choose|p: int| 0 <= p < nv.len() && nv[p] == y;
                if p < j {
                    assert(ev[p] == y);
                } else if p > j {
                    assert(ev[p - 1] == y);
                }
            }
            if ev.contains(y) {
                let p = choose|p: int| 0 <= p < ev.len() && ev[p] == y;
                if p < j {
                    assert(nv[p] == y);
                } else {
                    assert(nv[p + 1] == y);
                }
            }
            if y == x {
                assert(nv[j as int] == y);
            }
        }
    }
}

/// Collects the tree entries of `files` below `base`: each file and each of
/// its ancestor directories, as component lists, in path order, each once.
pub fn tree_entries(files: &Vec<String>, base: &str) -> (r: Result<Vec<Vec<String>>, GrabError>)
    ensures
        r is Ok <==> all_under(base@, texts(files@)),
        r matches Ok(es) ==> is_tree_listing(base@, texts(files@), entry_views(es@))
            && entry_views(es@) == tree_listing(base@, texts(files@)),
        r matches Err(err) ==> err matches GrabError::PathStripError { prefix, path } && prefix@
            == base@ && first_outside(base@, texts(files@), path@),
{
    let ghost fs = texts(files@);
    let mut es: Vec<Vec<String>> = Vec::new();
    let mut i: usize = 0;
    assert(entry_views(es@) =~= Seq::<Seq<Seq<char>>>::empty());
    while i < files.len()
        invariant
            i <= files.len(),
            fs == texts(files@),
            strictly_sorted(entry_views(es@), comps_order()),
            forall|j: int| 0 <= j < i ==> (#[trigger] strip_base(base@, fs[j])) is Some,
            forall|e: Seq<Seq<char>>|
                entry_views(es@).contains(e) <==> is_tree_entry(
                    base@,
                    fs.subrange(0, i as int),
                    e,
                ),
        decreases files.len() - i,
    {
        let rel = match strip_base_of(base, files[i].as_str()) {
            Some(r) => r,
            None => {
                assert(fs[i as int] == files@[i as int]@);
                assert(first_outside(base@, fs, files@[i as int]@));
                return Err(
                    GrabError::PathStripError {
                        prefix: String::from_str(base),
                        path: files[i].clone(),
                    },
                );
            },
        };
        let parts = split_components(rel.as_str());
        let ghost f = fs[i as int];
        let ghost pc = texts(parts@);
        assert(f == files@[i as int]@);
        assert(rel_components(base@, f) == pc);
        let mut cur: Vec<String> = Vec::new();
        let mut k: usize = 0;
        assert(texts(cur@) =~= pc.take(0));
        while k < parts.len()
            invariant
                i < files.len(),
                fs.len() == files.len(),
                k <= parts.len(),
                pc == texts(parts@),
                rel_components(base@, f) == pc,
                texts(cur@) == pc.take(k as int),
                strictly_sorted(entry_views(es@), comps_order()),
                forall|e: Seq<Seq<char>>|
                    entry_views(es@).contains(e) <==> (is_tree_entry(
                        base@,
                        fs.subrange(0, i as int),
                        e,
                    ) || exists|k2: int| 1 <= k2 <= k && e == #[trigger] rel_prefix(base@, f, k2)),
            decreases parts.len() - k,
        {
            let ghost old_cur = cur@;
            let piece = parts[k].clone();
            assert(piece@ == pc[k as int]);
            cur.push(piece);
            assert(texts(cur@) =~= texts(old_cur).push(pc[k as int]));
            assert(pc.take(k + 1) =~= pc.take(k as int).push(pc[k as int]));
            let entry = copy_texts(&cur);
            let ghost before = entry_views(es@);
            insert_entry(&mut es, entry);
            k = k + 1;
            proof {
                assert(rel_prefix(base@, f, k as int) == texts(cur@));
                assert forall|e: Seq<Seq<char>>|
                    (is_tree_entry(
                        base@,
                        fs.subrange(0, i as int),
                        e,
                    ) || exists|k2: int| 1 <= k2 <= k && e == #[trigger] rel_prefix(base@, f, k2)) implies entry_views(es@).contains(e) by {
                    if exists|k2: int| 1 <= k2 <= k && e == #[trigger] rel_prefix(base@, f, k2) {
                        let k2 = choose|k2: int| 1 <= k2 <= k && e == #[trigger] rel_prefix(base@, f, k2);
                        if k2 < k {
                            assert(before.contains(e));
                        }
                    }
                }
            }
        }
        proof {
            let s0 = fs.subrange(0, i as int);
            let s1 = fs.subrange(0, i + 1);
            assert forall|e: Seq<Seq<char>>|
                is_tree_entry(base@, s1, e) <==> (is_tree_entry(base@, s0, e) || exists|k2: int|
                    1 <= k2 <= pc.len() && e == #[trigger] rel_prefix(base@, f, k2)) by {
                if is_tree_entry(base@, s1, e) {
                    let (a, b) = choose|a: int, b: int|
                        0 <= a < s1.len() && 1 <= b <= rel_components(base@, s1[a]).len() && e
                            == #[trigger] rel_prefix(base@, s1[a], b);
                    if a < i {
                        assert(s0[a] == s1[a]);
                    } else {
                        assert(s1[a] == f);
                    }
                }
                if is_tree_entry(base@, s0, e) {
                    let (a, b) = choose|a: int, b: int|
                        0 <= a < s0.len() && 1 <= b <= rel_components(base@, s0[a]).len() && e
                            == #[trigger] rel_prefix(base@, s0[a], b);
                    assert(s1[a] == s0[a]);
                }
                if exists|k2: int| 1 <= k2 <= pc.len() && e == #[trigger] rel_prefix(base@, f, k2) {
                    let k2 = choose|k2: int| 1 <= k2 <= pc.len() && e == #[trigger] rel_prefix(base@, f, k2);
                    assert(s1[i as int] == f);
                    assert(e == rel_prefix(base@, s1[i as int], k2));
                }
            }
            assert(strip_base(base@, fs[i as int]) is Some);
        }
        i = i + 1;
    }
    assert(fs.subrange(0, i as int) =~= fs);
    proof {
        lemma_tree_listing_unique(base@, fs, entry_views(es@));
    }
    Ok(es)
}

/// In a tree listing an entry has entries below it exactly when the next
/// entry lies below it.
proof fn lemma_extension_is_next(es: Seq<Seq<Seq<char>>>, j: int)
    requires
        strictly_sorted(es, comps_order()),
        0 <= j < es.len(),
    ensures
        has_extension(es, es[j]) <==> (j + 1 < es.len() && es[j].len() < es[j + 1].len() && es[j]
            == es[j + 1].subrange(0, es[j].len() as int)),
{
    lemma_comps_order();
    lemma_text_order();
    let lt = comps_order();
    let e = es[j];
    if has_extension(es, e) {
        let m = choose|m: int|
            0 <= m < es.len() && e.len() < es[m].len() && e == #[trigger] es[m].subrange(
                0,
                e.len() as int,
            );
        lemma_prefix_first(e, es[m], 0, text_order());
        assert(lt(e, es[m]));
        if m < j {
            assert(lt(es[m], e));
            assert(lt(e, e));
        }
        assert(m > j);
        if m > j + 1 {
            let y = es[j + 1];
            assert(lt(e, y));
            assert(lt(y, es[m]));
            assert(y.subrange(0, 0) =~= e.subrange(0, 0));
            lemma_between_extends(e, y, es[m], 0, text_order());
        }
    }
    if j + 1 < es.len() && e.len() < es[j + 1].len() && e == es[j + 1].subrange(0, e.len() as int) {
        assert(e == es[j + 1].subrange(0, e.len() as int));
    }
}

fn has_extension_at(es: &Vec<Vec<String>>, j: usize) -> (r: bool)
    requires
        j < es.len(),
        strictly_sorted(entry_views(es@), comps_order()),
    ensures
        r == has_extension(entry_views(es@), entry_views(es@)[j as int]),
{
    proof {
        lemma_extension_is_next(entry_views(es@), j as int);
    }
    if j + 1 < es.len() {
        is_proper_prefix(&es[j], &es[j + 1])
    } else {
        false
    }
}

/// Renders a tree listing as text, one line per entry.
fn render_tree(es: &Vec<Vec<String>>) -> (r: String)
    requires
        strictly_sorted(entry_views(es@), comps_order()),
    ensures
        r@ == render_entries(entry_views(es@)),
{
    let ghost ev = entry_views(es@);
    let mut out = String::new();
    let mut j: usize = 0;
    while j < es.len()
        invariant
            j <= es.len(),
            ev == entry_views(es@),
            strictly_sorted(ev, comps_order()),
            out@ == render_upto(ev, j as int),
        decreases es.len() - j,
    {
        let d = es[j].len();
        if d > 0 {
            let ghost e = ev[j as int];
            let mut line = String::new();
            let mut t: usize = 1;
            proof {
                reveal_strlit("  ");
                reveal_strlit("- ");
                reveal_strlit("/");
                reveal_strlit("\n");
            }
            assert(line@ =~= indent(0));
            while t < d
                invariant
                    1 <= t <= d,
                    line@ == indent(t - 1),
                decreases d - t,
            {
                proof {
                    reveal_strlit("  ");
                }
                line.append("  ");
                assert(line@ =~= indent(t as int));
                t = t + 1;
            }
            line.append("- ");
            line.append(es[j][d - 1].as_str());
            let dir = has_extension_at(es, j);
            if dir {
                line.append("/");
            }
            line.append("\n");
            assert(e.last() == es@[j as int]@[d - 1]@);
            assert(line@ =~= entry_line(e, dir));
            out.append(line.as_str());
        }
        assert(out@ =~= render_upto(ev, j + 1));
        j = j + 1;
    }
    out
}

/// Renders `files` (each at or below `base`) as an indented tree: the files
/// and their ancestor directories below `base`, in path order, each once, a
/// directory marked with a trailing `/`.
pub fn generate_indented_tree(files: &Vec<String>, base: &str) -> (r: Result<String, GrabError>)
    ensures
        r is Ok <==> all_under(base@, texts(files@)),
        r matches Ok(t) ==> t@ == render_entries(tree_listing(base@, texts(files@))),
        r matches Err(err) ==> err matches GrabError::PathStripError { prefix, path } && prefix@
            == base@ && first_outside(base@, texts(files@), path@),
{
    let es = tree_entries(files, base)?;
    let t = render_tree(&es);
    proof {
        lemma_tree_listing_unique(base@, texts(files@), entry_views(es@));
    }
    Ok(t)
}

/// Tree completeness: in any tree listing of `files`, the `k`-th ancestor
/// entry of file `i` (the file itself when `k` is its depth) appears exactly
/// once; when it is a proper ancestor it is rendered as a directory and lies
/// exactly one level above the next entry on the way down to the file.
pub proof fn lemma_tree_complete(
    base: Seq<char>,
    files: Seq<Seq<char>>,
    es: Seq<Seq<Seq<char>>>,
    i: int,
    k: int,
)
    requires
        is_tree_listing(base, files, es),
        0 <= i < files.len(),
        1 <= k <= rel_components(base, files[i]).len(),
    ensures
        es.contains(rel_prefix(base, files[i], k)),
        forall|j1: int, j2: int|
            0 <= j1 < es.len() && 0 <= j2 < es.len() && es[j1] == rel_prefix(base, files[i], k)
                && es[j2] == rel_prefix(base, files[i], k) ==> j1 == j2,
        k < rel_components(base, files[i]).len() ==> has_extension(
            es,
            rel_prefix(base, files[i], k),
        ),
        k < rel_components(base, files[i]).len() ==> rel_prefix(base, files[i], k).len() + 1
            == rel_prefix(base, files[i], k + 1).len(),
        k < rel_components(base, files[i]).len() ==> forall|j: int|
            0 <= j < es.len() && es[j] == rel_prefix(base, files[i], k) ==> #[trigger] line_at(es, j)
                == entry_line(rel_prefix(base, files[i], k), true),
{
    lemma_comps_order();
    let p = rel_prefix(base, files[i], k);
    assert(is_tree_entry(base, files, p));
    assert forall|j1: int, j2: int|
        0 <= j1 < es.len() && 0 <= j2 < es.len() && es[j1] == p && es[j2] == p implies j1 == j2 by {
        if j1 < j2 {
            assert(comps_order()(es[j1], es[j2]));
        } else if j2 < j1 {
            assert(comps_order()(es[j2], es[j1]));
        }
    }
    if k < rel_components(base, files[i]).len() {
        let q = rel_prefix(base, files[i], k + 1);
        assert(is_tree_entry(base, files, q));
        assert(es.contains(q));
        let j = choose|j: int| 0 <= j < es.len() && es[j] == q;
        assert(p =~= es[j].subrange(0, p.len() as int));
    }
}

} // verus!

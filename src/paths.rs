use vstd::prelude::*;

verus! {

/// The views of a list of strings.
pub open spec fn texts(v: Seq<String>) -> Seq<Seq<char>> {
    v.map_values(|s: String| s@)
}

/// The non-empty segment `s[start..end]` as a one-element list, or nothing.
pub open spec fn segment(s: Seq<char>, start: int, end: int) -> Seq<Seq<char>> {
    if start < end {
        seq![s.subrange(start, end)]
    } else {
        seq![]
    }
}

/// The pieces of `s[start..]` between occurrences of `sep`, where
/// `s[start..i]` holds no `sep`.
pub open spec fn pieces_from(s: Seq<char>, sep: char, start: int, i: int) -> Seq<Seq<char>>
    decreases s.len() - i,
{
    if i < 0 || i >= s.len() {
        segment(s, start, s.len() as int)
    } else if s[i] == sep {
        segment(s, start, i) + pieces_from(s, sep, i + 1, i + 1)
    } else {
        pieces_from(s, sep, start, i + 1)
    }
}

/// The maximal non-empty runs of characters other than `sep` in `s`, in order.
pub open spec fn pieces(s: Seq<char>, sep: char) -> Seq<Seq<char>> {
    pieces_from(s, sep, 0, 0)
}

/// The components of a `/`-separated path.
pub open spec fn path_components(s: Seq<char>) -> Seq<Seq<char>> {
    pieces(s, '/')
}

/// `path` with the directory `base` taken off its front: `Some` of the rest when
/// `path` is `base` itself or lies below it, `None` otherwise.
pub open spec fn strip_base(base: Seq<char>, path: Seq<char>) -> Option<Seq<char>> {
    if path == base {
        Some(seq![])
    } else if base.len() > 0 && base.last() == '/' && base.is_prefix_of(path) {
        Some(path.skip(base.len() as int))
    } else if base.push('/').is_prefix_of(path) {
        Some(path.skip(base.len() + 1int))
    } else {
        None
    }
}

/// `rel` appended to the directory `base`, with a separator between them
/// unless `base` already ends in one.
pub open spec fn join_path(base: Seq<char>, rel: Seq<char>) -> Seq<char> {
    if base.len() > 0 && base.last() == '/' {
        base + rel
    } else {
        base.push('/') + rel
    }
}

/// Joining a relative path to a directory and taking the directory off again
/// gives the relative path back.
pub proof fn lemma_join_strip(base: Seq<char>, rel: Seq<char>)
    ensures
        strip_base(base, join_path(base, rel)) == Some(rel),
{
    let x = join_path(base, rel);
    if base.len() > 0 && base.last() == '/' {
        assert(x.subrange(0, base.len() as int) =~= base);
        assert(x.skip(base.len() as int) =~= rel);
        if x == base {
            assert(rel.len() == 0);
            assert(rel =~= Seq::<char>::empty());
        }
    } else {
        assert(x.len() == base.len() + 1 + rel.len());
        assert(x.subrange(0, base.len() + 1int) =~= base.push('/'));
        assert(x.skip(base.len() + 1int) =~= rel);
        assert(x != base);
    }
}

/// Appends `rel` to the directory `base` (see `join_path`).
pub fn join_path_of(base: &str, rel: &str) -> (r: String)
    ensures
        r@ == join_path(base@, rel@),
{
    let mut out = String::from_str(base);
    let n = base.unicode_len();
    if n == 0 || base.get_char(n - 1) != '/' {
        proof {
            reveal_strlit("/");
        }
        out.append("/");
    }
    out.append(rel);
    assert(out@ =~= join_path(base@, rel@));
    out
}

/// Whether `c` occurs in `s`.
pub fn has_char(s: &str, c: char) -> (r: bool)
    ensures
        r == s@.contains(c),
{
    let n = s.unicode_len();
    let mut i: usize = 0;
    while i < n
        invariant
            n == s@.len(),
            i <= n,
            forall|j: int| 0 <= j < i ==> s@[j] != c,
        decreases n - i,
    {
        if s.get_char(i) == c {
            return true;
        }
        i = i + 1;
    }
    false
}

/// Whether `needle` occurs in `hay` as a contiguous run.
pub open spec fn contains_seq(hay: Seq<char>, needle: Seq<char>) -> bool {
    exists|i: int|
        0 <= i && i + needle.len() <= hay.len() && #[trigger] hay.subrange(i, i + needle.len())
            == needle
}

/// Whether `needle` occurs in `hay` (see `contains_seq`).
pub fn contains_str(hay: &str, needle: &str) -> (r: bool)
    ensures
        r == contains_seq(hay@, needle@),
{
    let hn = hay.unicode_len();
    let nn = needle.unicode_len();
    if nn > hn {
        return false;
    }
    let mut i: usize = 0;
    while i <= hn - nn
        invariant
            hn == hay@.len(),
            nn == needle@.len(),
            nn <= hn,
            i <= hn - nn,
            forall|j: int| 0 <= j < i ==> #[trigger] hay@.subrange(j, j + nn) != needle@,
        decreases hn - nn - i,
    {
        let mut k: usize = 0;
        let mut same = true;
        while k < nn
            invariant
                hn == hay@.len(),
                nn == needle@.len(),
                i + nn <= hn,
                k <= nn,
                same ==> forall|m: int| 0 <= m < k ==> hay@[i + m] == needle@[m],
                !same ==> hay@.subrange(i as int, i + nn) != needle@,
            decreases nn - k,
        {
            if same && hay.get_char(i + k) != needle.get_char(k) {
                same = false;
                assert(hay@.subrange(i as int, i + nn)[k as int] != needle@[k as int]);
            }
            k = k + 1;
        }
        if same {
            assert(hay@.subrange(i as int, i + nn) =~= needle@);
            return true;
        }
        if i == hn - nn {
            return false;
        }
        i = i + 1;
    }
    false
}

/// Splits a path into its components.
pub fn split_components(s: &str) -> (r: Vec<String>)
    ensures
        texts(r@) == path_components(s@),
{
    split_nonempty(s, '/')
}

/// Splits `s` at each `sep`, keeping the non-empty pieces.
pub fn split_nonempty(s: &str, sep: char) -> (r: Vec<String>)
    ensures
        texts(r@) == pieces(s@, sep),
{
    let n = s.unicode_len();
    let mut out: Vec<String> = Vec::new();
    let mut start: usize = 0;
    let mut i: usize = 0;
    while i < n
        invariant
            n == s@.len(),
            start <= i <= n,
            texts(out@) + pieces_from(s@, sep, start as int, i as int) == pieces(s@, sep),
        decreases n - i,
    {
        let c = s.get_char(i);
        if c == sep {
            let ghost before = out@;
            if start < i {
                let part = String::from_str(s.substring_char(start, i));
                out.push(part);
            }
            assert(texts(out@) =~= texts(before) + segment(s@, start as int, i as int));
            start = i + 1;
        }
        i = i + 1;
    }
    let ghost before = out@;
    if start < n {
        let part = String::from_str(s.substring_char(start, n));
        out.push(part);
    }
    assert(texts(out@) =~= texts(before) + segment(s@, start as int, n as int));
    assert(texts(out@) =~= texts(out@) + Seq::<Seq<char>>::empty());
    out
}

/// Whether `p` starts with `q`.
pub fn has_prefix(p: &str, q: &str) -> (r: bool)
    ensures
        r == q@.is_prefix_of(p@),
{
    let pn = p.unicode_len();
    let qn = q.unicode_len();
    if qn > pn {
        return false;
    }
    let mut i: usize = 0;
    while i < qn
        invariant
            pn == p@.len(),
            qn == q@.len(),
            qn <= pn,
            i <= qn,
            forall|j: int| 0 <= j < i ==> p@[j] == q@[j],
        decreases qn - i,
    {
        if p.get_char(i) != q.get_char(i) {
            return false;
        }
        i = i + 1;
    }
    assert(q@ =~= p@.subrange(0, qn as int));
    true
}

/// Takes the directory `base` off the front of `path` (see `strip_base`).
pub fn strip_base_of(base: &str, path: &str) -> (r: Option<String>)
    ensures
        r matches Some(x) ==> strip_base(base@, path@) == Some(x@),
        r is None ==> strip_base(base@, path@) is None,
{
    let bn = base.unicode_len();
    let pn = path.unicode_len();
    if bn == pn && has_prefix(path, base) {
        assert(base@ =~= path@);
        return Some(String::new());
    }
    if bn > 0 && base.get_char(bn - 1) == '/' && has_prefix(path, base) {
        proof {
            if path@ == base@ {
                assert(false);
            }
        }
        return Some(String::from_str(path.substring_char(bn, pn)));
    }
    proof {
        if path@ == base@ {
            assert(base@.is_prefix_of(path@));
        }
    }
    if bn < pn && has_prefix(path, base) && path.get_char(bn) == '/' {
        assert(base@.push('/') =~= path@.subrange(0, bn + 1));
        return Some(String::from_str(path.substring_char(bn + 1, pn)));
    }
    proof {
        if base@.push('/').is_prefix_of(path@) {
            assert(base@ =~= path@.subrange(0, bn as int));
            assert(path@[bn as int] == base@.push('/')[bn as int]);
        }
    }
    None
}

/// Whether the component list `a` is a prefix of `b`.
pub fn texts_prefix(a: &Vec<String>, b: &Vec<String>) -> (r: bool)
    ensures
        r == texts(a@).is_prefix_of(texts(b@)),
{
    if a.len() > b.len() {
        return false;
    }
    let mut i: usize = 0;
    while i < a.len()
        invariant
            a.len() <= b.len(),
            i <= a.len(),
            forall|j: int| 0 <= j < i ==> a@[j]@ == b@[j]@,
        decreases a.len() - i,
    {
        if !(a[i] == b[i]) {
            assert(texts(a@)[i as int] != texts(b@).subrange(0, a.len() as int)[i as int]);
            return false;
        }
        i = i + 1;
    }
    assert(texts(a@) =~= texts(b@).subrange(0, a.len() as int));
    true
}

pub open spec fn opt_string_view(o: Option<String>) -> Option<Seq<char>> {
    match o {
        Some(s) => Some(s@),
        None => None,
    }
}

/// Unicode White_Space, the characters that `char::is_whitespace` accepts.
pub open spec fn is_white_space(c: char) -> bool {
    let u = c as int;
    (0x9 <= u <= 0xd) || u == 0x20 || u == 0x85 || u == 0xa0 || u == 0x1680 || (0x2000 <= u
        <= 0x200a) || u == 0x2028 || u == 0x2029 || u == 0x202f || u == 0x205f || u == 0x3000
}

/// `s` without its leading white space.
pub open spec fn trim_start(s: Seq<char>) -> Seq<char>
    decreases s.len(),
{
    if s.len() > 0 && is_white_space(s[0]) {
        trim_start(s.skip(1))
    } else {
        s
    }
}

/// `s` without its trailing white space.
pub open spec fn trim_end(s: Seq<char>) -> Seq<char>
    decreases s.len(),
{
    if s.len() > 0 && is_white_space(s.last()) {
        trim_end(s.drop_last())
    } else {
        s
    }
}

/// `s` without leading and trailing white space, as `str::trim` gives it.
pub open spec fn trimmed(s: Seq<char>) -> Seq<char> {
    trim_end(trim_start(s))
}

/// Whether `c` is white space (see `is_white_space`).
pub fn white_space(c: char) -> (r: bool)
    ensures
        r == is_white_space(c),
{
    let u = c as u32;
    proof {
        assert(u as int == c as int);
    }
    (0x9 <= u && u <= 0xd) || u == 0x20 || u == 0x85 || u == 0xa0 || u == 0x1680 || (0x2000 <= u
        && u <= 0x200a) || u == 0x2028 || u == 0x2029 || u == 0x202f || u == 0x205f || u == 0x3000
}

/// The position just past the last character of `s[from..to]` that is not
/// white space, or `from` when there is none.
fn end_of_content(s: &str, from: usize, to: usize) -> (j: usize)
    requires
        from <= to <= s@.len(),
    ensures
        from <= j <= to,
        trim_end(s@.subrange(from as int, to as int)) == s@.subrange(from as int, j as int),
{
    let mut j = to;
    while j > from
        invariant
            from <= j <= to <= s@.len(),
            trim_end(s@.subrange(from as int, to as int)) == trim_end(
                s@.subrange(from as int, j as int),
            ),
        decreases j,
    {
        if !white_space(s.get_char(j - 1)) {
            return j;
        }
        assert(s@.subrange(from as int, j as int).drop_last() =~= s@.subrange(
            from as int,
            j - 1,
        ));
        j = j - 1;
    }
    j
}

/// Removes leading and trailing white space (see `trimmed`).
pub fn trim_text(s: &str) -> (r: String)
    ensures
        r@ == trimmed(s@),
{
    let n = s.unicode_len();
    let mut i: usize = 0;
    assert(s@.skip(0) =~= s@);
    while i < n && white_space(s.get_char(i))
        invariant
            n == s@.len(),
            i <= n,
            trim_start(s@) == trim_start(s@.skip(i as int)),
        decreases n - i,
    {
        assert(s@.skip(i as int).skip(1) =~= s@.skip(i + 1));
        i = i + 1;
    }
    assert(trim_start(s@) == s@.skip(i as int));
    assert(s@.skip(i as int) =~= s@.subrange(i as int, n as int));
    let j = end_of_content(s, i, n);
    String::from_str(s.substring_char(i, j))
}

} // verus!

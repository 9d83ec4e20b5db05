use vstd::prelude::*;
use crate::config::{GrabConfig, GrabError};
use crate::paths::{
    has_char, join_path, join_path_of, lemma_join_strip, opt_string_view, path_components, pieces, split_components,
    split_nonempty, strip_base, strip_base_of, texts, texts_prefix,
};
use crate::textlist::{dedup, insert_path, is_file_set, lemma_dedup_contains, push_unique};

verus! {

/// The file name under which the tool writes its output by default.
pub const DEFAULT_OUTPUT_NAME: &'static str = "dirgrab.txt";

/// Components joined with single `/` separators.
pub open spec fn join_comps(cs: Seq<Seq<char>>) -> Seq<char>
    decreases cs.len(),
{
    if cs.len() == 0 {
        seq![]
    } else if cs.len() == 1 {
        cs[0]
    } else {
        join_comps(cs.drop_last()) + seq!['/'] + cs.last()
    }
}

/// A path in the form the version-control tool expects: its components
/// joined by `/`.
pub fn normalize_for_git(path: &str) -> (r: String)
    ensures
        r@ == join_comps(path_components(path@)),
{
    let parts = split_components(path);
    let ghost pc = texts(parts@);
    let mut out = String::new();
    let mut i: usize = 0;
    proof {
        reveal_strlit("/");
    }
    assert(pc.take(0) =~= Seq::<Seq<char>>::empty());
    while i < parts.len()
        invariant
            i <= parts.len(),
            pc == texts(parts@),
            out@ == join_comps(pc.take(i as int)),
        decreases parts.len() - i,
    {
        proof {
            reveal_strlit("/");
        }
        if i > 0 {
            out.append("/");
        }
        out.append(parts[i].as_str());
        assert(pc[i as int] == parts@[i as int]@);
        assert(pc.take(i + 1).last() == pc[i as int]);
        assert(pc.take(i + 1).drop_last() =~= pc.take(i as int));
        assert(out@ =~= join_comps(pc.take(i + 1)));
        i = i + 1;
    }
    assert(pc.take(i as int) =~= pc);
    out
}

/// An exclusion pattern as the version-control tool reads it: a pattern
/// without `/` may match at any depth.
pub open spec fn git_pattern(p: Seq<char>) -> Seq<char> {
    if p.contains('/') {
        p
    } else {
        "**/"@ + p
    }
}

/// Lets a pattern without `/` match at any depth (see `git_pattern`).
pub fn prefix_for_git(pattern: &str) -> (r: String)
    ensures
        r@ == git_pattern(pattern@),
{
    if has_char(pattern, '/') {
        String::from_str(pattern)
    } else {
        let mut out = String::from_str("**/");
        out.append(pattern);
        out
    }
}

pub open spec fn opt_view(o: Option<&str>) -> Option<Seq<char>> {
    match o {
        Some(s) => Some(s@),
        None => None,
    }
}

/// The path restriction for a scope: nothing for no scope or an empty one;
/// for a directory, everything below it; otherwise the file itself.
pub open spec fn scope_pathspecs(scope: Option<Seq<char>>, is_dir: bool) -> Seq<Seq<char>> {
    match scope {
        None => seq![],
        Some(s) => if s.len() == 0 {
            seq![]
        } else {
            let n = join_comps(path_components(s));
            if is_dir {
                seq![
                    ":(glob)"@ + n + (if n.len() > 0 && n.last() == '/' {
                        "**"@
                    } else {
                        "/**"@
                    }),
                ]
            } else {
                seq![":(glob)"@ + n]
            }
        },
    }
}

/// Builds the path restriction for `scope_subdir`; `scope_is_dir` tells
/// whether that path is a directory in the repository.
pub fn build_scope_pathspecs(scope_subdir: Option<&str>, scope_is_dir: bool) -> (r: Vec<String>)
    ensures
        texts(r@) == scope_pathspecs(opt_view(scope_subdir), scope_is_dir),
{
    let mut specs: Vec<String> = Vec::new();
    match scope_subdir {
        None => {
            assert(texts(specs@) =~= Seq::<Seq<char>>::empty());
        },
        Some(rel) => {
            if rel.unicode_len() == 0 {
                assert(texts(specs@) =~= Seq::<Seq<char>>::empty());
                return specs;
            }
            let normalized = normalize_for_git(rel);
            let mut spec = String::from_str(":(glob)");
            spec.append(normalized.as_str());
            if scope_is_dir {
                let n = normalized.unicode_len();
                if n > 0 && normalized.as_str().get_char(n - 1) == '/' {
                    spec.append("**");
                } else {
                    spec.append("/**");
                }
            }
            specs.push(spec);
            assert(texts(specs@) =~= scope_pathspecs(opt_view(scope_subdir), scope_is_dir));
        },
    }
    specs
}

/// The exclusions in the order they are applied: the default output file
/// unless it is let in, then the user's patterns.
pub open spec fn exclusion_candidates(patterns: Seq<Seq<char>>, include_default_output: bool) -> Seq<
    Seq<char>,
> {
    if include_default_output {
        patterns
    } else {
        seq![DEFAULT_OUTPUT_NAME@] + patterns
    }
}

pub open spec fn exclude_pathspec(p: Seq<char>) -> Seq<char> {
    ":(glob,exclude)"@ + git_pattern(p)
}

pub open spec fn exclude_pathspecs_of(d: Seq<Seq<char>>) -> Seq<Seq<char>> {
    d.map_values(|p: Seq<char>| exclude_pathspec(p))
}

/// One exclusion pathspec per distinct exclusion, in first-seen order.
pub open spec fn exclude_pathspecs(patterns: Seq<Seq<char>>, include_default_output: bool) -> Seq<
    Seq<char>,
> {
    exclude_pathspecs_of(dedup(exclusion_candidates(patterns, include_default_output)))
}

/// Builds the exclusion pathspecs of `config` (see `exclude_pathspecs`).
pub fn build_exclude_pathspecs(config: &GrabConfig) -> (r: Vec<String>)
    ensures
        texts(r@) == exclude_pathspecs(
            texts(config.exclude_patterns@),
            config.include_default_output,
        ),
{
    let ghost pats = texts(config.exclude_patterns@);
    let ghost head: Seq<Seq<char>> = if config.include_default_output {
        seq![]
    } else {
        seq![DEFAULT_OUTPUT_NAME@]
    };
    let mut seen: Vec<String> = Vec::new();
    assert(texts(seen@) =~= dedup(Seq::<Seq<char>>::empty()));
    if !config.include_default_output {
        push_unique(&mut seen, DEFAULT_OUTPUT_NAME, Ghost(Seq::<Seq<char>>::empty()));
        assert(Seq::<Seq<char>>::empty().push(DEFAULT_OUTPUT_NAME@) =~= head);
    }
    assert(head + pats.take(0) =~= head);
    let mut i: usize = 0;
    while i < config.exclude_patterns.len()
        invariant
            i <= config.exclude_patterns.len(),
            pats == texts(config.exclude_patterns@),
            texts(seen@) == dedup(head + pats.take(i as int)),
        decreases config.exclude_patterns.len() - i,
    {
        push_unique(&mut seen, config.exclude_patterns[i].as_str(), Ghost(head + pats.take(i as int)));
        assert((head + pats.take(i as int)).push(pats[i as int]) =~= head + pats.take(i + 1));
        i = i + 1;
    }
    assert(pats.take(i as int) =~= pats);
    let ghost d = texts(seen@);
    let mut specs: Vec<String> = Vec::new();
    let mut j: usize = 0;
    while j < seen.len()
        invariant
            j <= seen.len(),
            d == texts(seen@),
            texts(specs@) == exclude_pathspecs_of(d.take(j as int)),
        decreases seen.len() - j,
    {
        let mut spec = String::from_str(":(glob,exclude)");
        let pat = prefix_for_git(seen[j].as_str());
        spec.append(pat.as_str());
        let ghost before = texts(specs@);
        assert(d[j as int] == seen@[j as int]@);
        assert(spec@ == exclude_pathspec(d[j as int]));
        specs.push(spec);
        assert(texts(specs@) =~= before.push(exclude_pathspec(d[j as int])));
        assert(d.take(j + 1) =~= d.take(j as int).push(d[j as int]));
        assert(texts(specs@) =~= exclude_pathspecs_of(d.take(j + 1)));
        j = j + 1;
    }
    assert(d.take(j as int) =~= d);
    specs
}

/// The arguments of one listing query: tracked files, or with `untracked`
/// also the untracked files that are not ignored.
pub open spec fn ls_files_args(
    scope_specs: Seq<Seq<char>>,
    exclude_specs: Seq<Seq<char>>,
    untracked: bool,
) -> Seq<Seq<char>> {
    seq!["ls-files"@, "-z"@] + (if untracked {
        seq!["--others"@, "--exclude-standard"@]
    } else {
        seq![]
    }) + scope_specs + exclude_specs
}

fn append_all(out: &mut Vec<String>, more: &Vec<String>)
    ensures
        texts(final(out)@) == texts(old(out)@) + texts(more@),
{
    let mut i: usize = 0;
    let ghost start = texts(out@);
    while i < more.len()
        invariant
            i <= more.len(),
            texts(out@) == start + texts(more@).take(i as int),
        decreases more.len() - i,
    {
        let ghost before = texts(out@);
        let item = more[i].clone();
        out.push(item);
        assert(texts(out@) =~= before.push(texts(more@)[i as int]));
        assert(texts(more@).take(i + 1) =~= texts(more@).take(i as int).push(texts(more@)[i as int]));
        assert(texts(out@) =~= start + texts(more@).take(i + 1));
        i = i + 1;
    }
    assert(texts(more@).take(i as int) =~= texts(more@));
}

/// The arguments of one listing query (see `ls_files_args`).
pub fn git_ls_args(scope_specs: &Vec<String>, exclude_specs: &Vec<String>, untracked: bool) -> (r:
    Vec<String>)
    ensures
        texts(r@) == ls_files_args(texts(scope_specs@), texts(exclude_specs@), untracked),
{
    let mut args: Vec<String> = Vec::new();
    args.push(String::from_str("ls-files"));
    args.push(String::from_str("-z"));
    if untracked {
        args.push(String::from_str("--others"));
        args.push(String::from_str("--exclude-standard"));
    }
    append_all(&mut args, scope_specs);
    append_all(&mut args, exclude_specs);
    assert(texts(args@) =~= ls_files_args(texts(scope_specs@), texts(exclude_specs@), untracked));
    args
}

/// The listing queries to run for `config` within `scope_subdir`: tracked
/// files first, then, if asked for, untracked files that are not ignored.
pub open spec fn listing_queries(
    scope: Option<Seq<char>>,
    scope_is_dir: bool,
    patterns: Seq<Seq<char>>,
    include_untracked: bool,
    include_default_output: bool,
) -> Seq<Seq<Seq<char>>> {
    let s = scope_pathspecs(scope, scope_is_dir);
    let e = exclude_pathspecs(patterns, include_default_output);
    if include_untracked {
        seq![ls_files_args(s, e, false), ls_files_args(s, e, true)]
    } else {
        seq![ls_files_args(s, e, false)]
    }
}

pub open spec fn arg_lists_view(v: Seq<Vec<String>>) -> Seq<Seq<Seq<char>>> {
    v.map_values(|a: Vec<String>| texts(a@))
}

/// The argument lists of the listing queries (see `listing_queries`).
pub fn git_listing_queries(scope_subdir: Option<&str>, scope_is_dir: bool, config: &GrabConfig) -> (r:
    Vec<Vec<String>>)
    ensures
        arg_lists_view(r@) == listing_queries(
            opt_view(scope_subdir),
            scope_is_dir,
            texts(config.exclude_patterns@),
            config.include_untracked,
            config.include_default_output,
        ),
{
    let scope_specs = build_scope_pathspecs(scope_subdir, scope_is_dir);
    let exclude_specs = build_exclude_pathspecs(config);
    let mut queries: Vec<Vec<String>> = Vec::new();
    queries.push(git_ls_args(&scope_specs, &exclude_specs, false));
    if config.include_untracked {
        queries.push(git_ls_args(&scope_specs, &exclude_specs, true));
    }
    assert(arg_lists_view(queries@) =~= listing_queries(
        opt_view(scope_subdir),
        scope_is_dir,
        texts(config.exclude_patterns@),
        config.include_untracked,
        config.include_default_output,
    ));
    queries
}

/// The components of a scope (none for no scope).
pub open spec fn scope_comps(scope: Option<Seq<char>>) -> Seq<Seq<char>> {
    match scope {
        Some(s) => path_components(s),
        None => seq![],
    }
}

/// A listing entry lies within the scope: the scope itself or below it.
pub open spec fn in_scope(scope: Option<Seq<char>>, entry: Seq<char>) -> bool {
    scope_comps(scope).is_prefix_of(path_components(entry))
}

/// `x` is one of the entries `es` within the scope, joined to `root`.
pub open spec fn listed_among(
    root: Seq<char>,
    scope: Option<Seq<char>>,
    es: Seq<Seq<char>>,
    x: Seq<char>,
) -> bool {
    exists|q: int| 0 <= q < es.len() && in_scope(scope, es[q]) && x == #[trigger] join_path(root, es[q])
}

/// `x` is a file that a listing printed as `out` names: a non-empty
/// NUL-separated entry within the scope, joined to the repository root.
pub open spec fn listed_file(
    root: Seq<char>,
    scope: Option<Seq<char>>,
    out: Seq<char>,
    x: Seq<char>,
) -> bool {
    listed_among(root, scope, pieces(out, '\0'), x)
}

spec fn absorbed(
    now: Seq<Seq<char>>,
    start: Seq<Seq<char>>,
    root: Seq<char>,
    scope: Option<Seq<char>>,
    es: Seq<Seq<char>>,
) -> bool {
    forall|x: Seq<char>| now.contains(x) <==> (start.contains(x) || listed_among(root, scope, es, x))
}

/// Takes in the result of one listing query: on success, adds each file it
/// names to the file set `files`; on failure, reports the query.
pub fn absorb_ls_output(
    repo_root: &str,
    scope_subdir: Option<&str>,
    command: &str,
    success: bool,
    stdout: &str,
    stderr: &str,
    files: &mut Vec<String>,
) -> (r: Result<(), GrabError>)
    requires
        is_file_set(texts(old(files)@)),
    ensures
        is_file_set(texts(final(files)@)),
        r is Ok <==> success,
        !success ==> texts(final(files)@) == texts(old(files)@),
        r matches Err(err) ==> err matches GrabError::GitCommandError { command: c, stderr: e, stdout: o }
            && c@ == command@ && e@ == stderr@ && o@ == stdout@,
        success ==> forall|x: Seq<char>|
            texts(final(files)@).contains(x) <==> (texts(old(files)@).contains(x) || listed_file(
                repo_root@,
                opt_view(scope_subdir),
                stdout@,
                x,
            )),
{
    if !success {
        return Err(
            GrabError::GitCommandError {
                command: String::from_str(command),
                stderr: String::from_str(stderr),
                stdout: String::from_str(stdout),
            },
        );
    }
    let ghost start = texts(files@);
    let ghost scope = opt_view(scope_subdir);
    let ghost root = repo_root@;
    let entries = split_nonempty(stdout, '\0');
    let ghost ents = texts(entries@);
    let scope_parts = match scope_subdir {
        Some(sc) => split_components(sc),
        None => Vec::new(),
    };
    assert(texts(scope_parts@) =~= scope_comps(scope));
    let mut k: usize = 0;
    while k < entries.len()
        invariant
            k <= entries.len(),
            ents == texts(entries@),
            start == texts(old(files)@),
            scope == opt_view(scope_subdir),
            ents == pieces(stdout@, '\0'),
            root == repo_root@,
            texts(scope_parts@) == scope_comps(scope),
            is_file_set(texts(files@)),
            absorbed(texts(files@), start, root, scope, ents.take(k as int)),
        decreases entries.len() - k,
    {
        let ghost before = texts(files@);
        assert(forall|x: Seq<char>|
            before.contains(x) <==> (start.contains(x) || listed_among(root, scope, ents.take(k as int), x)));
        let ghost ek = ents[k as int];
        assert(ek == entries@[k as int]@);
        let eparts = split_components(entries[k].as_str());
        let inside = texts_prefix(&scope_parts, &eparts);
        assert(inside == in_scope(scope, ek));
        if inside {
            let p = join_path_of(repo_root, entries[k].as_str());
            insert_path(files, p);
        }
        assert(forall|x: Seq<char>|
            texts(files@).contains(x) <==> (before.contains(x) || (inside && x == join_path(
                root,
                ek,
            ))));
        proof {
            let t0 = ents.take(k as int);
            let t1 = ents.take(k + 1);
            assert forall|x: Seq<char>|
                listed_among(root, scope, t1, x) <==> (listed_among(root, scope, t0, x) || (
                inside && x == join_path(root, ek))) by {
                if listed_among(root, scope, t1, x) {
                    let q = choose|q: int|
                        0 <= q < t1.len() && in_scope(scope, t1[q]) && x == #[trigger] join_path(
                            root,
                            t1[q],
                        );
                    if q < k {
                        assert(t0[q] == t1[q]);
                    }
                }
                if listed_among(root, scope, t0, x) {
                    let q = choose|q: int|
                        0 <= q < t0.len() && in_scope(scope, t0[q]) && x == #[trigger] join_path(
                            root,
                            t0[q],
                        );
                    assert(t1[q] == t0[q]);
                }
                if inside && x == join_path(root, ek) {
                    assert(t1[k as int] == ek);
                }
            }
            assert forall|x: Seq<char>|
                texts(files@).contains(x) <==> (start.contains(x) || listed_among(
                    root,
                    scope,
                    t1,
                    x,
                )) by {
                assert(before.contains(x) <==> (start.contains(x) || listed_among(
                    root,
                    scope,
                    t0,
                    x,
                )));
            }
            assert(t1 == ents.take(k + 1));
        }
        assert(absorbed(texts(files@), start, root, scope, ents.take(k + 1)));
        k = k + 1;
    }
    assert(ents.take(k as int) =~= ents);
    assert(absorbed(texts(files@), start, root, scope, ents));
    Ok(())
}

/// The sub-path of the repository to restrict listing to: none when the whole
/// repository is asked for, or the target is the root or not below it.
pub open spec fn scope_of(root: Seq<char>, target: Seq<char>, all_repo: bool) -> Option<Seq<char>> {
    if all_repo {
        None
    } else {
        match strip_base(root, target) {
            Some(rel) => if rel.len() == 0 {
                None
            } else {
                Some(rel)
            },
            None => None,
        }
    }
}

/// Derives the listing scope of a target path inside a repository (see
/// `scope_of`).
pub fn derive_scope_subdir(repo_root: &str, target_path: &str, config: &GrabConfig) -> (r: Option<
    String,
>)
    ensures
        opt_string_view(r) == scope_of(repo_root@, target_path@, config.all_repo),
{
    if config.all_repo {
        return None;
    }
    match strip_base_of(repo_root, target_path) {
        Some(rel) => {
            if rel.as_str().unicode_len() == 0 {
                None
            } else {
                Some(rel)
            }
        },
        None => None,
    }
}

proof fn lemma_dedup_first(s: Seq<Seq<char>>)
    requires
        s.len() > 0,
    ensures
        dedup(s).len() > 0,
        dedup(s)[0] == s[0],
    decreases s.len(),
{
    if s.len() > 1 {
        let d = s.drop_last();
        lemma_dedup_first(d);
        assert(d[0] == s[0]);
        if d.contains(s.last()) {
            assert(dedup(s) == dedup(d));
        } else {
            assert(dedup(s) == dedup(d).push(s.last()));
            assert(dedup(s)[0] == dedup(d)[0]);
        }
    } else {
        assert(s.drop_last() =~= Seq::<Seq<char>>::empty());
        assert(!s.drop_last().contains(s.last()));
        assert(dedup(s) == dedup(s.drop_last()).push(s.last()));
        assert(dedup(s)[0] == s.last());
    }
}

/// The repository queries are asked to leave out the default output file
/// first, unless it is let in, and every user pattern, each matching at any
/// depth unless it holds a `/`.
pub proof fn lemma_git_exclusions(patterns: Seq<Seq<char>>, include_default_output: bool)
    ensures
        !include_default_output ==> exclude_pathspecs(patterns, include_default_output)[0]
            == exclude_pathspec(DEFAULT_OUTPUT_NAME@),
        forall|p: Seq<char>|
            patterns.contains(p) ==> exclude_pathspecs(patterns, include_default_output).contains(
                exclude_pathspec(p),
            ),
{
    let c = exclusion_candidates(patterns, include_default_output);
    let d = dedup(c);
    lemma_dedup_contains(c);
    if !include_default_output {
        assert(c[0] == DEFAULT_OUTPUT_NAME@);
        lemma_dedup_first(c);
    }
    assert forall|p: Seq<char>| patterns.contains(p) implies exclude_pathspecs(
        patterns,
        include_default_output,
    ).contains(exclude_pathspec(p)) by {
        let q = choose|q: int| 0 <= q < patterns.len() && patterns[q] == p;
        assert(c[c.len() - patterns.len() + q] == p);
        assert(c.contains(p));
        assert(d.contains(p));
        let r = choose|r: int| 0 <= r < d.len() && d[r] == p;
        assert(exclude_pathspecs(patterns, include_default_output)[r] == exclude_pathspec(p));
    }
}

/// A file that a scoped listing contributes lies below the repository root,
/// at a relative path that is the scope or lies below it.
pub proof fn lemma_listing_scoped(root: Seq<char>, scope: Seq<char>, out: Seq<char>, x: Seq<char>)
    requires
        listed_file(root, Some(scope), out, x),
    ensures
        exists|e: Seq<char>|
            #[trigger] strip_base(root, x) == Some(e) && path_components(scope).is_prefix_of(
                path_components(e),
            ),
{
    let es = pieces(out, '\0');
    let q = choose|q: int|
        0 <= q < es.len() && in_scope(Some(scope), es[q]) && x == #[trigger] join_path(root, es[q]);
    assert(x == join_path(root, es[q]));
    lemma_join_strip(root, es[q]);
}

} // verus!

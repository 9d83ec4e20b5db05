use vstd::prelude::*;
use ignore::gitignore::{Gitignore, GitignoreBuilder};
use crate::config::{GrabConfig, GrabError};
use crate::gitls::DEFAULT_OUTPUT_NAME;
use crate::paths::{
    contains_seq, contains_str, has_prefix, is_white_space, path_components, split_components,
    strip_base,
    strip_base_of, texts, trim_end,
};
use crate::textlist::{insert_path, is_file_set, same_text};

verus! {

/// The `ignore` crate's compiled gitignore matcher, carried as an opaque value.
#[verifier::external_type_specification]
#[verifier::external_body]
pub struct ExGitignore(Gitignore);

/// The `ignore` crate's gitignore matcher builder, carried as an opaque value.
#[verifier::external_type_specification]
#[verifier::external_body]
pub struct ExGitignoreBuilder(GitignoreBuilder);

/// The `ignore` crate's error, carried as an opaque value.
#[verifier::external_type_specification]
#[verifier::external_body]
pub struct ExIgnoreError(ignore::Error);

/// The directory that a matcher builder matches paths relative to.
pub uninterp spec fn builder_root(b: GitignoreBuilder) -> Seq<char>;

/// The lines a matcher builder has taken so far, in order, as it keeps them
/// (see `taken_line`).
pub uninterp spec fn builder_lines(b: GitignoreBuilder) -> Seq<Seq<char>>;

/// The directory that a matcher matches paths relative to.
pub uninterp spec fn matcher_root(g: Gitignore) -> Seq<char>;

/// The lines a matcher was built from, in order.
pub uninterp spec fn matcher_lines(g: Gitignore) -> Seq<Seq<char>>;

/// Whether a gitignore line is accepted (builders here keep the default,
/// case-sensitive settings, so this depends on the line alone).
pub uninterp spec fn line_accepted(line: Seq<char>) -> bool;

/// Whether a matcher can be built from the taken lines `lines` (the glob set
/// compiled from them builds).
pub uninterp spec fn matcher_builds(lines: Seq<Seq<char>>) -> bool;

/// Whether the gitignore lines `lines`, read relative to `root`, ignore the
/// relative path `path` or one of its parent directories (`Match::Ignore`;
/// a whitelist match or no match is not ignoring).
pub uninterp spec fn ignored_by(
    root: Seq<char>,
    lines: Seq<Seq<char>>,
    path: Seq<char>,
    is_dir: bool,
) -> bool;

/// The root a builder keeps: the one given, without a leading `./`.
pub open spec fn kept_root(root: Seq<char>) -> Seq<char> {
    if seq!['.', '/'].is_prefix_of(root) {
        root.skip(2)
    } else {
        root
    }
}

/// The line a builder keeps from `line`: nothing for a `#` comment or a line
/// that is blank once trailing white space is cut; otherwise the line with
/// trailing white space cut, unless it ends in an escaped space.
pub open spec fn taken_line(line: Seq<char>) -> Option<Seq<char>> {
    if line.len() > 0 && line[0] == '#' {
        None
    } else {
        let t = if line.len() >= 2 && line[line.len() - 2] == '\\' && line.last() == ' ' {
            line
        } else {
            trim_end(line)
        };
        if t.len() == 0 {
            None
        } else {
            Some(t)
        }
    }
}

/// A relative path the matcher can take without panicking: it does not start
/// with `/` or `./`, and holds no `//`.
pub open spec fn clean_relative(path: Seq<char>) -> bool {
    &&& !(path.len() > 0 && path[0] == '/')
    &&& !"./"@.is_prefix_of(path)
    &&& !contains_seq(path, "//"@)
}

/// Relies on `GitignoreBuilder::new`: an empty builder for paths relative to
/// `root` less a leading `./`, with the default settings. It is the only way
/// verified code gets a builder.
#[verifier::external_body]
fn new_matcher_builder(root: &str) -> (b: GitignoreBuilder)
    ensures
        builder_root(b) == kept_root(root@),
        builder_lines(b) == Seq::<Seq<char>>::empty(),
{
    GitignoreBuilder::new(root)
}

/// Relies on `GitignoreBuilder::add_line` (with no source file): a comment or
/// blank line is accepted and changes nothing; another line is kept (see
/// `taken_line`) when its glob compiles, and refused before the builder
/// changes otherwise.
#[verifier::external_body]
fn add_matcher_line(b: &mut GitignoreBuilder, line: &str) -> (ok: bool)
    ensures
        ok == line_accepted(line@),
        taken_line(line@) is None ==> ok,
        builder_root(*final(b)) == builder_root(*old(b)),
        builder_lines(*final(b)) == (if ok {
            match taken_line(line@) {
                Some(t) => builder_lines(*old(b)).push(t),
                None => builder_lines(*old(b)),
            }
        } else {
            builder_lines(*old(b))
        }),
{
    b.add_line(None, line).is_ok()
}

/// Relies on `GitignoreBuilder::build`: it fails only when the glob set of the
/// taken lines does not build; on success, the matcher of the builder's root
/// and lines.
#[verifier::external_body]
fn build_matcher(b: &GitignoreBuilder) -> (r: Result<Gitignore, ignore::Error>)
    ensures
        r is Ok <==> matcher_builds(builder_lines(*b)),
        r matches Ok(g) ==> matcher_root(g) == builder_root(*b) && matcher_lines(g)
            == builder_lines(*b),
{
    b.build()
}

/// Relies on `Display for ignore::Error`: a description of the failure.
#[verifier::external_body]
fn describe_ignore_error(e: &ignore::Error) -> String {
    e.to_string()
}

/// Relies on `Gitignore::matched_path_or_any_parents` and `Match::is_ignore`:
/// whether the path or one of its parents is ignored. The call panics when the
/// path still starts with `/` after the matcher takes off a leading `./`, then
/// its root and one `/`; a clean relative path (see `clean_relative`) never
/// does.
#[verifier::external_body]
fn matched_ignore(g: &Gitignore, path: &str, is_dir: bool) -> (r: bool)
    requires
        clean_relative(path@),
    ensures
        r == ignored_by(matcher_root(*g), matcher_lines(*g), path@, is_dir),
{
    g.matched_path_or_any_parents(path, is_dir).is_ignore()
}

/// The lines of the walk's exclusion matcher, in order: the default output
/// file unless it is let in, then the user's patterns.
pub open spec fn walk_exclusion_lines(patterns: Seq<Seq<char>>, include_default_output: bool) -> Seq<
    Seq<char>,
> {
    (if include_default_output {
        seq![]
    } else {
        seq![DEFAULT_OUTPUT_NAME@]
    }) + patterns
}

/// The lines a builder keeps from offering it each of `s`, in order.
pub open spec fn accepted_lines(s: Seq<Seq<char>>) -> Seq<Seq<char>>
    decreases s.len(),
{
    if s.len() == 0 {
        seq![]
    } else if line_accepted(s.last()) {
        match taken_line(s.last()) {
            Some(t) => accepted_lines(s.drop_last()).push(t),
            None => accepted_lines(s.drop_last()),
        }
    } else {
        accepted_lines(s.drop_last())
    }
}

fn add_lines(b: &mut GitignoreBuilder, lines: &Vec<String>, Ghost(done): Ghost<Seq<Seq<char>>>)
    requires
        builder_lines(*old(b)) == accepted_lines(done),
    ensures
        builder_root(*final(b)) == builder_root(*old(b)),
        builder_lines(*final(b)) == accepted_lines(done + texts(lines@)),
{
    let mut i: usize = 0;
    assert(done + texts(lines@).take(0) =~= done);
    while i < lines.len()
        invariant
            i <= lines.len(),
            builder_root(*b) == builder_root(*old(b)),
            builder_lines(*b) == accepted_lines(done + texts(lines@).take(i as int)),
        decreases lines.len() - i,
    {
        add_matcher_line(b, lines[i].as_str());
        assert((done + texts(lines@).take(i + 1)).drop_last() =~= done + texts(lines@).take(
            i as int,
        ));
        i = i + 1;
    }
    assert(texts(lines@).take(i as int) =~= texts(lines@));
}

/// Builds the exclusion matcher of a filesystem walk from `target_path` (see
/// `walk_exclusion_lines`); a line that does not compile is left out. It fails
/// exactly when the matcher of the kept lines cannot be built.
pub fn build_walk_matcher(target_path: &str, config: &GrabConfig) -> (r: Result<Gitignore, GrabError>)
    ensures
        r is Ok <==> matcher_builds(
            accepted_lines(
                walk_exclusion_lines(texts(config.exclude_patterns@), config.include_default_output),
            ),
        ),
        r matches Ok(g) ==> matcher_root(g) == kept_root(target_path@) && matcher_lines(g)
            == accepted_lines(
            walk_exclusion_lines(texts(config.exclude_patterns@), config.include_default_output),
        ),
        r matches Err(e) ==> e is GlobMatcherBuildError,
{
    let mut b = new_matcher_builder(target_path);
    let ghost mut done: Seq<Seq<char>> = seq![];
    assert(builder_lines(b) == accepted_lines(done));
    if !config.include_default_output {
        add_matcher_line(&mut b, DEFAULT_OUTPUT_NAME);
        proof {
            done = seq![DEFAULT_OUTPUT_NAME@];
            assert(done.drop_last() =~= Seq::<Seq<char>>::empty());
            assert(done.last() == DEFAULT_OUTPUT_NAME@);
            assert(builder_lines(b) == accepted_lines(done));
        }
    }
    add_lines(&mut b, &config.exclude_patterns, Ghost(done));
    assert(done + texts(config.exclude_patterns@) =~= walk_exclusion_lines(
        texts(config.exclude_patterns@),
        config.include_default_output,
    ));
    match build_matcher(&b) {
        Ok(g) => Ok(g),
        Err(e) => Err(GrabError::GlobMatcherBuildError(describe_ignore_error(&e))),
    }
}

/// One entry met while walking: its path, its kind (that of the link's target
/// for a symbolic link) and, for a link, its resolved target.
#[derive(Debug, Clone)]
pub struct WalkEntry {
    pub path: String,
    pub is_dir: bool,
    pub is_file: bool,
    pub is_symlink: bool,
    pub resolved: Option<String>,
}

/// What the walk does with an entry.
#[derive(Debug, Clone, Copy, PartialEq, Eq, Structural)]
pub enum EntryAction {
    /// A file to take into the set.
    Include,
    /// A directory to go into.
    Descend,
    /// Neither taken nor gone into.
    Skip,
}

/// A symbolic link whose target resolves to a place outside the scan root.
pub open spec fn escapes_root(root: Seq<char>, is_symlink: bool, resolved: Option<Seq<char>>) -> bool {
    is_symlink && match resolved {
        Some(t) => strip_base(root, t) is None,
        None => true,
    }
}

/// The entry lies in the version-control metadata directory: a directory on
/// its way is named `.git`, or it is such a directory itself.
pub open spec fn in_metadata_dir(comps: Seq<Seq<char>>, is_dir: bool) -> bool {
    exists|i: int|
        0 <= i < comps.len() && #[trigger] comps[i] == ".git"@ && (i < comps.len() - 1 || is_dir)
}

fn metadata_entry(rel: &str, is_dir: bool) -> (r: bool)
    ensures
        r == in_metadata_dir(path_components(rel@), is_dir),
{
    let comps = split_components(rel);
    let ghost cs = texts(comps@);
    let mut i: usize = 0;
    while i < comps.len()
        invariant
            i <= comps.len(),
            cs == texts(comps@),
            cs == path_components(rel@),
            forall|j: int|
                0 <= j < i ==> !(#[trigger] cs[j] == ".git"@ && (j < cs.len() - 1 || is_dir)),
        decreases comps.len() - i,
    {
        assert(cs[i as int] == comps@[i as int]@);
        if same_text(comps[i].as_str(), ".git") && (i + 1 < comps.len() || is_dir) {
            return true;
        }
        i = i + 1;
    }
    false
}

/// The walk's decision on an entry under the canonical root `root`, with the
/// exclusion lines `lines`. The metadata directory is left out whatever the
/// lines say.
pub open spec fn entry_action(
    root: Seq<char>,
    lines: Seq<Seq<char>>,
    path: Seq<char>,
    is_dir: bool,
    is_file: bool,
    is_symlink: bool,
    resolved: Option<Seq<char>>,
) -> EntryAction {
    match strip_base(root, path) {
        None => EntryAction::Skip,
        Some(rel) => if escapes_root(root, is_symlink, resolved) {
            EntryAction::Skip
        } else if is_dir && rel.len() == 0 {
            EntryAction::Descend
        } else if !clean_relative(rel) {
            EntryAction::Skip
        } else if in_metadata_dir(path_components(rel), is_dir) {
            EntryAction::Skip
        } else if is_dir {
            if ignored_by(kept_root(root), lines, rel, true) {
                EntryAction::Skip
            } else {
                EntryAction::Descend
            }
        } else if is_file {
            if ignored_by(kept_root(root), lines, rel, false) {
                EntryAction::Skip
            } else {
                EntryAction::Include
            }
        } else {
            EntryAction::Skip
        },
    }
}

pub open spec fn resolved_view(e: WalkEntry) -> Option<Seq<char>> {
    match e.resolved {
        Some(t) => Some(t@),
        None => None,
    }
}

/// Decides what the walk does with `entry` (see `entry_action`); a file that is
/// taken is added to the file set `files`.
pub fn walk_step(matcher: &Gitignore, root: &str, entry: &WalkEntry, files: &mut Vec<String>) -> (r:
    EntryAction)
    requires
        matcher_root(*matcher) == kept_root(root@),
        is_file_set(texts(old(files)@)),
    ensures
        r == entry_action(
            root@,
            matcher_lines(*matcher),
            entry.path@,
            entry.is_dir,
            entry.is_file,
            entry.is_symlink,
            resolved_view(*entry),
        ),
        is_file_set(texts(final(files)@)),
        forall|x: Seq<char>|
            texts(final(files)@).contains(x) <==> (texts(old(files)@).contains(x) || (r
                == EntryAction::Include && x == entry.path@)),
{
    let rel = match strip_base_of(root, entry.path.as_str()) {
        Some(rel) => rel,
        None => {
            return EntryAction::Skip;
        },
    };
    if entry.is_symlink {
        let inside = match &entry.resolved {
            Some(t) => strip_base_of(root, t.as_str()).is_some(),
            None => false,
        };
        if !inside {
            return EntryAction::Skip;
        }
    }
    let n = rel.as_str().unicode_len();
    if entry.is_dir && n == 0 {
        return EntryAction::Descend;
    }
    if n > 0 && rel.as_str().get_char(0) == '/' {
        return EntryAction::Skip;
    }
    if has_prefix(rel.as_str(), "./") || contains_str(rel.as_str(), "//") {
        return EntryAction::Skip;
    }
    if metadata_entry(rel.as_str(), entry.is_dir) {
        return EntryAction::Skip;
    }
    if entry.is_dir {
        if matched_ignore(matcher, rel.as_str(), true) {
            EntryAction::Skip
        } else {
            EntryAction::Descend
        }
    } else if entry.is_file {
        if matched_ignore(matcher, rel.as_str(), false) {
            EntryAction::Skip
        } else {
            insert_path(files, entry.path.clone());
            EntryAction::Include
        }
    } else {
        EntryAction::Skip
    }
}

/// A file the walk takes in is a file and not a directory, lies at or below
/// the root, is not ignored by the exclusion lines (neither itself nor through
/// one of its parent directories), is not reached through a link that leaves
/// the root, and has no directory named `.git` on its way.
pub proof fn lemma_walk_include_sound(
    root: Seq<char>,
    lines: Seq<Seq<char>>,
    path: Seq<char>,
    is_dir: bool,
    is_file: bool,
    is_symlink: bool,
    resolved: Option<Seq<char>>,
)
    requires
        entry_action(root, lines, path, is_dir, is_file, is_symlink, resolved)
            == EntryAction::Include,
    ensures
        is_file,
        !is_dir,
        strip_base(root, path) is Some,
        !ignored_by(kept_root(root), lines, strip_base(root, path).unwrap(), false),
        !escapes_root(root, is_symlink, resolved),
        forall|i: int|
            0 <= i < path_components(strip_base(root, path).unwrap()).len() - 1 ==> #[trigger] path_components(
                strip_base(root, path).unwrap(),
            )[i] != ".git"@,
{
    let comps = path_components(strip_base(root, path).unwrap());
    assert(!in_metadata_dir(comps, false));
    assert forall|i: int| 0 <= i < comps.len() - 1 implies #[trigger] comps[i] != ".git"@ by {
        if comps[i] == ".git"@ {
            assert(in_metadata_dir(comps, false));
        }
    }
}

/// A link whose target resolves outside the root is neither taken in nor gone
/// into.
pub proof fn lemma_escaping_link_skipped(
    root: Seq<char>,
    lines: Seq<Seq<char>>,
    path: Seq<char>,
    is_dir: bool,
    is_file: bool,
    resolved: Option<Seq<char>>,
)
    requires
        escapes_root(root, true, resolved),
    ensures
        entry_action(root, lines, path, is_dir, is_file, true, resolved) == EntryAction::Skip,
{
}

/// A directory that the exclusion lines ignore (itself or through a parent) is
/// not gone into, so nothing below it is taken in.
pub proof fn lemma_ignored_directory_pruned(
    root: Seq<char>,
    lines: Seq<Seq<char>>,
    path: Seq<char>,
    is_file: bool,
    is_symlink: bool,
    resolved: Option<Seq<char>>,
)
    requires
        strip_base(root, path) is Some,
        strip_base(root, path).unwrap().len() > 0,
        ignored_by(kept_root(root), lines, strip_base(root, path).unwrap(), true),
    ensures
        entry_action(root, lines, path, true, is_file, is_symlink, resolved) == EntryAction::Skip,
{
}

proof fn lemma_accepted_first(s: Seq<Seq<char>>)
    requires
        s.len() > 0,
        line_accepted(s[0]),
        taken_line(s[0]) == Some(s[0]),
    ensures
        accepted_lines(s).len() > 0,
        accepted_lines(s)[0] == s[0],
    decreases s.len(),
{
    if s.len() > 1 {
        let d = s.drop_last();
        assert(d[0] == s[0]);
        lemma_accepted_first(d);
        if line_accepted(s.last()) {
            match taken_line(s.last()) {
                Some(t) => {
                    assert(accepted_lines(s)[0] == accepted_lines(d)[0]);
                },
                None => {},
            }
        }
    } else {
        assert(s.drop_last() =~= Seq::<Seq<char>>::empty());
        assert(accepted_lines(s) == accepted_lines(s.drop_last()).push(s.last()));
    }
}

/// Once the default output name compiles, it heads the walk matcher's lines
/// unless the default output is let in.
pub proof fn lemma_walk_default_output_first(patterns: Seq<Seq<char>>)
    requires
        line_accepted(DEFAULT_OUTPUT_NAME@),
    ensures
        accepted_lines(walk_exclusion_lines(patterns, false))[0] == DEFAULT_OUTPUT_NAME@,
{
    let w = walk_exclusion_lines(patterns, false);
    let d = DEFAULT_OUTPUT_NAME@;
    assert(w[0] == d);
    reveal_strlit("dirgrab.txt");
    assert(d.len() == 11);
    assert(d.last() == 't');
    assert(!is_white_space('t'));
    assert(d[9] != '\\');
    assert(trim_end(d) == d);
    assert(taken_line(d) == Some(d));
    lemma_accepted_first(w);
}

/// The walk's matcher is asked to leave out the default output file first,
/// unless it is let in; every user pattern follows.
pub proof fn lemma_walk_exclusions(patterns: Seq<Seq<char>>, include_default_output: bool)
    ensures
        !include_default_output ==> walk_exclusion_lines(patterns, include_default_output)[0]
            == DEFAULT_OUTPUT_NAME@,
        forall|p: Seq<char>|
            patterns.contains(p) ==> walk_exclusion_lines(
                patterns,
                include_default_output,
            ).contains(p),
{
    let w = walk_exclusion_lines(patterns, include_default_output);
    let h = w.len() - patterns.len();
    assert forall|p: Seq<char>| patterns.contains(p) implies w.contains(p) by {
        let q = choose|q: int| 0 <= q < patterns.len() && patterns[q] == p;
        assert(w[h + q] == p);
    }
}

/// Nothing in the version-control metadata directory is taken in or gone
/// into, whatever the exclusion lines are.
pub proof fn lemma_metadata_left_out(
    root: Seq<char>,
    lines: Seq<Seq<char>>,
    path: Seq<char>,
    is_dir: bool,
    is_file: bool,
    is_symlink: bool,
    resolved: Option<Seq<char>>,
)
    requires
        strip_base(root, path) is Some,
        in_metadata_dir(path_components(strip_base(root, path).unwrap()), is_dir),
    ensures
        entry_action(root, lines, path, is_dir, is_file, is_symlink, resolved) == EntryAction::Skip,
{
    let rel = strip_base(root, path).unwrap();
    if is_dir && rel.len() == 0 {
        assert(path_components(rel) =~= Seq::<Seq<char>>::empty()) by {
            assert(rel =~= Seq::<char>::empty());
        }
    }
}

} // verus!

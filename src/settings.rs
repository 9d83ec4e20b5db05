use vstd::prelude::*;
use crate::gitls::DEFAULT_OUTPUT_NAME;
use crate::paths::{pieces, split_nonempty, texts, trim_text, trimmed};
use crate::textlist::contains_text;

verus! {

/// The switches of a run, as configuration files and the command line leave
/// them.
#[derive(Debug, Clone, Copy, PartialEq, Eq, Structural)]
pub struct Flags {
    pub add_headers: bool,
    pub include_tree: bool,
    pub convert_pdf: bool,
    pub include_default_output: bool,
    pub include_untracked: bool,
    pub no_git: bool,
    pub all_repo: bool,
}

impl Default for Flags {
    /// Headers, tree, PDF text and untracked files on; the rest off.
    fn default() -> (r: Self)
        ensures
            r.add_headers && r.include_tree && r.convert_pdf && r.include_untracked,
            !r.include_default_output && !r.no_git && !r.all_repo,
    {
        Flags {
            add_headers: true,
            include_tree: true,
            convert_pdf: true,
            include_default_output: false,
            include_untracked: true,
            no_git: false,
            all_repo: false,
        }
    }
}

/// Exclusion patterns gathered from several sources: trimmed, non-empty and
/// each kept once, in first-seen order.
#[derive(Debug)]
pub struct PatternAccumulator {
    patterns: Vec<String>,
}

impl View for PatternAccumulator {
    type V = Seq<Seq<char>>;

    closed spec fn view(&self) -> Seq<Seq<char>> {
        texts(self.patterns@)
    }
}

/// `acc` after offering it the (already trimmed) pattern `p`.
pub open spec fn with_pattern(acc: Seq<Seq<char>>, p: Seq<char>) -> Seq<Seq<char>> {
    if p.len() == 0 || acc.contains(p) {
        acc
    } else {
        acc.push(p)
    }
}

/// `acc` after offering it each of `items`, in order, trimmed.
pub open spec fn with_patterns(acc: Seq<Seq<char>>, items: Seq<Seq<char>>) -> Seq<Seq<char>>
    decreases items.len(),
{
    if items.len() == 0 {
        acc
    } else {
        with_pattern(with_patterns(acc, items.drop_last()), trimmed(items.last()))
    }
}

impl PatternAccumulator {
    /// An empty accumulator.
    pub fn new() -> (r: Self)
        ensures
            r@ == Seq::<Seq<char>>::empty(),
    {
        let r = PatternAccumulator { patterns: Vec::new() };
        assert(r@ =~= Seq::<Seq<char>>::empty());
        r
    }

    /// Offers an already trimmed pattern: kept unless empty or already there.
    pub fn push_trimmed(&mut self, candidate: &str)
        ensures
            final(self)@ == with_pattern(old(self)@, candidate@),
    {
        if candidate.unicode_len() == 0 {
            return;
        }
        if contains_text(&self.patterns, candidate) {
            return;
        }
        let ghost before = self@;
        self.patterns.push(String::from_str(candidate));
        assert(self@ =~= before.push(candidate@));
    }

    /// Offers a pattern, trimmed first.
    pub fn push(&mut self, pattern: &str)
        ensures
            final(self)@ == with_pattern(old(self)@, trimmed(pattern@)),
    {
        let t = trim_text(pattern);
        self.push_trimmed(t.as_str());
    }

    /// Offers each of `items`, in order.
    pub fn merge(&mut self, items: &Vec<String>)
        ensures
            final(self)@ == with_patterns(old(self)@, texts(items@)),
    {
        let ghost start = self@;
        let mut i: usize = 0;
        assert(texts(items@).take(0) =~= Seq::<Seq<char>>::empty());
        while i < items.len()
            invariant
                i <= items.len(),
                self@ == with_patterns(start, texts(items@).take(i as int)),
            decreases items.len() - i,
        {
            self.push(items[i].as_str());
            assert(texts(items@).take(i + 1).drop_last() =~= texts(items@).take(i as int));
            i = i + 1;
        }
        assert(texts(items@).take(i as int) =~= texts(items@));
    }

    /// The gathered patterns.
    pub fn into_vec(self) -> (r: Vec<String>)
        ensures
            texts(r@) == self@,
    {
        self.patterns
    }
}

/// The pattern an ignore-file line offers: the trimmed line, or nothing for a
/// comment.
pub open spec fn ignore_line_pattern(line: Seq<char>) -> Seq<char> {
    let t = trimmed(line);
    if t.len() > 0 && t[0] == '#' {
        seq![]
    } else {
        t
    }
}

/// `acc` after offering it the pattern of each of `lines`, in order.
pub open spec fn with_ignore_lines(acc: Seq<Seq<char>>, lines: Seq<Seq<char>>) -> Seq<Seq<char>>
    decreases lines.len(),
{
    if lines.len() == 0 {
        acc
    } else {
        with_pattern(with_ignore_lines(acc, lines.drop_last()), ignore_line_pattern(lines.last()))
    }
}

impl PatternAccumulator {
    /// Offers the patterns of an ignore file: one per non-blank line that is
    /// not a `#` comment, trimmed.
    pub fn apply_ignore_text(&mut self, contents: &str)
        ensures
            final(self)@ == with_ignore_lines(old(self)@, pieces(contents@, '\n')),
    {
        let lines = split_nonempty(contents, '\n');
        let ghost ls = texts(lines@);
        let ghost start = self@;
        let mut i: usize = 0;
        assert(ls.take(0) =~= Seq::<Seq<char>>::empty());
        while i < lines.len()
            invariant
                i <= lines.len(),
                ls == texts(lines@),
                self@ == with_ignore_lines(start, ls.take(i as int)),
            decreases lines.len() - i,
        {
            let t = trim_text(lines[i].as_str());
            assert(ls[i as int] == lines@[i as int]@);
            if t.as_str().unicode_len() > 0 && t.as_str().get_char(0) == '#' {
                assert(ignore_line_pattern(ls[i as int]) =~= Seq::<char>::empty());
            } else {
                self.push_trimmed(t.as_str());
            }
            assert(ls.take(i + 1).drop_last() =~= ls.take(i as int));
            i = i + 1;
        }
        assert(ls.take(i as int) =~= ls);
    }
}

/// Offering patterns never brings in an empty one or a repeat.
pub proof fn lemma_patterns_distinct(acc: Seq<Seq<char>>, items: Seq<Seq<char>>)
    requires
        acc.no_duplicates(),
        forall|i: int| 0 <= i < acc.len() ==> #[trigger] acc[i].len() > 0,
    ensures
        with_patterns(acc, items).no_duplicates(),
        forall|i: int|
            0 <= i < with_patterns(acc, items).len() ==> #[trigger] with_patterns(acc, items)[i].len()
                > 0,
    decreases items.len(),
{
    if items.len() > 0 {
        lemma_patterns_distinct(acc, items.drop_last());
        let a = with_patterns(acc, items.drop_last());
        let p = trimmed(items.last());
        if !(p.len() == 0 || a.contains(p)) {
            assert(with_patterns(acc, items) == a.push(p));
            assert forall|i: int, j: int|
                0 <= i < a.len() + 1 && 0 <= j < a.len() + 1 && i != j implies a.push(p)[i]
                != a.push(p)[j] by {
                if i == a.len() {
                    assert(a[j] != p);
                } else if j == a.len() {
                    assert(a[i] != p);
                }
            }
        }
    }
}

/// The `[dirgrab]` section of a configuration file; an absent key leaves the
/// setting as it was.
#[derive(Debug, Clone)]
pub struct DirgrabSection {
    pub exclude: Option<Vec<String>>,
    pub include_untracked: Option<bool>,
    pub include_tree: Option<bool>,
    pub add_headers: Option<bool>,
    pub convert_pdf: Option<bool>,
    pub include_default_output: Option<bool>,
    pub no_git: Option<bool>,
    pub tracked_only: Option<bool>,
    pub all_repo: Option<bool>,
}

/// The value of an optional setting, or `d` when absent.
pub open spec fn pick(o: Option<bool>, d: bool) -> bool {
    match o {
        Some(v) => v,
        None => d,
    }
}

/// Applies a `[dirgrab]` section: its patterns are offered, each present key
/// sets its switch, and `tracked_only` wins over `include_untracked`.
pub fn apply_dirgrab_section(
    section: DirgrabSection,
    flags: &mut Flags,
    patterns: &mut PatternAccumulator,
)
    ensures
        final(patterns)@ == (match section.exclude {
            Some(v) => with_patterns(old(patterns)@, texts(v@)),
            None => old(patterns)@,
        }),
        final(flags).include_untracked == (match section.tracked_only {
            Some(t) => !t,
            None => pick(section.include_untracked, old(flags).include_untracked),
        }),
        final(flags).include_tree == pick(section.include_tree, old(flags).include_tree),
        final(flags).add_headers == pick(section.add_headers, old(flags).add_headers),
        final(flags).convert_pdf == pick(section.convert_pdf, old(flags).convert_pdf),
        final(flags).include_default_output == pick(
            section.include_default_output,
            old(flags).include_default_output,
        ),
        final(flags).no_git == pick(section.no_git, old(flags).no_git),
        final(flags).all_repo == pick(section.all_repo, old(flags).all_repo),
{
    if let Some(values) = &section.exclude {
        patterns.merge(values);
    }
    if let Some(value) = section.include_untracked {
        flags.include_untracked = value;
    }
    if let Some(value) = section.include_tree {
        flags.include_tree = value;
    }
    if let Some(value) = section.add_headers {
        flags.add_headers = value;
    }
    if let Some(value) = section.convert_pdf {
        flags.convert_pdf = value;
    }
    if let Some(value) = section.include_default_output {
        flags.include_default_output = value;
    }
    if let Some(value) = section.no_git {
        flags.no_git = value;
    }
    if let Some(value) = section.tracked_only {
        flags.include_untracked = !value;
    }
    if let Some(value) = section.all_repo {
        flags.all_repo = value;
    }
}

/// The command-line switches that override configuration files.
#[derive(Debug, Clone, Copy, PartialEq, Eq, Structural)]
pub struct CliOverrides {
    pub no_headers: bool,
    pub no_tree: bool,
    pub no_pdf: bool,
    pub include_default_output: bool,
    pub no_git: bool,
    pub all_repo: bool,
    pub tracked_only: bool,
    pub include_untracked: bool,
}

/// Applies the command-line switches: each one given wins over the files;
/// asking for untracked files wins over asking for tracked ones only.
pub fn apply_cli_overrides(flags: &mut Flags, cli: &CliOverrides)
    ensures
        final(flags).add_headers == (old(flags).add_headers && !cli.no_headers),
        final(flags).include_tree == (old(flags).include_tree && !cli.no_tree),
        final(flags).convert_pdf == (old(flags).convert_pdf && !cli.no_pdf),
        final(flags).include_default_output == (old(flags).include_default_output
            || cli.include_default_output),
        final(flags).no_git == (old(flags).no_git || cli.no_git),
        final(flags).all_repo == (old(flags).all_repo || cli.all_repo),
        final(flags).include_untracked == (cli.include_untracked || (!cli.tracked_only && old(
            flags,
        ).include_untracked)),
{
    if cli.no_headers {
        flags.add_headers = false;
    }
    if cli.no_tree {
        flags.include_tree = false;
    }
    if cli.no_pdf {
        flags.convert_pdf = false;
    }
    if cli.include_default_output {
        flags.include_default_output = true;
    }
    if cli.no_git {
        flags.no_git = true;
    }
    if cli.all_repo {
        flags.all_repo = true;
    }
    if cli.tracked_only {
        flags.include_untracked = false;
    }
    if cli.include_untracked {
        flags.include_untracked = true;
    }
}

/// ASCII letters compared without regard to case; other characters exactly.
pub open spec fn same_char_ignoring_ascii_case(a: char, b: char) -> bool {
    a == b || ('A' <= a <= 'Z' && (b as int) == (a as int) + 32) || ('A' <= b <= 'Z' && (a as int)
        == (b as int) + 32)
}

pub open spec fn eq_ignoring_ascii_case(a: Seq<char>, b: Seq<char>) -> bool {
    a.len() == b.len() && forall|i: int|
        0 <= i < a.len() ==> #[trigger] same_char_ignoring_ascii_case(a[i], b[i])
}

fn char_eq_ignoring_ascii_case(a: char, b: char) -> (r: bool)
    ensures
        r == same_char_ignoring_ascii_case(a, b),
{
    let x = a as u32;
    let y = b as u32;
    proof {
        assert(x as int == a as int);
        assert(y as int == b as int);
    }
    a == b || ('A' <= a && a <= 'Z' && y == x + 32) || ('A' <= b && b <= 'Z' && x == y + 32)
}

/// Whether two texts are equal up to the case of ASCII letters.
pub fn eq_ignore_ascii_case_str(a: &str, b: &str) -> (r: bool)
    ensures
        r == eq_ignoring_ascii_case(a@, b@),
{
    let n = a.unicode_len();
    if n != b.unicode_len() {
        return false;
    }
    let mut i: usize = 0;
    while i < n
        invariant
            n == a@.len(),
            n == b@.len(),
            i <= n,
            forall|j: int| 0 <= j < i ==> #[trigger] same_char_ignoring_ascii_case(a@[j], b@[j]),
        decreases n - i,
    {
        if !char_eq_ignoring_ascii_case(a.get_char(i), b.get_char(i)) {
            return false;
        }
        i = i + 1;
    }
    true
}

/// Whether the file name of the output being written is to be left out of
/// the listing: always, except the default output name (in any ASCII case)
/// when the default output is let in.
pub fn excludes_output_name(name: &str, include_default_output: bool) -> (r: bool)
    ensures
        r == !(eq_ignoring_ascii_case(name@, DEFAULT_OUTPUT_NAME@) && include_default_output),
{
    !(eq_ignore_ascii_case_str(name, DEFAULT_OUTPUT_NAME) && include_default_output)
}

impl PatternAccumulator {
    /// Offers the file name of the output being written, when there is one,
    /// unless it is the default output name and the default output is let in.
    pub fn offer_output_name(&mut self, name: Option<&str>, include_default_output: bool)
        ensures
            final(self)@ == (match name {
                Some(n) => if !(eq_ignoring_ascii_case(n@, DEFAULT_OUTPUT_NAME@)
                    && include_default_output) {
                    with_pattern(old(self)@, trimmed(n@))
                } else {
                    old(self)@
                },
                None => old(self)@,
            }),
    {
        if let Some(n) = name {
            if excludes_output_name(n, include_default_output) {
                self.push(n);
            }
        }
    }
}

} // verus!

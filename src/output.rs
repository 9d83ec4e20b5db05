use vstd::prelude::*;
use vstd::utf8::encode_utf8;
use std::ops::Range;
use crate::config::{GrabOutput, GrabbedFile};
use crate::paths::{path_components, split_components, strip_base, strip_base_of};
use crate::settings::{eq_ignore_ascii_case_str, eq_ignoring_ascii_case};

verus! {

/// Opens the directory tree section.
pub const TREE_HEADER: &'static str = "---\nDIRECTORY STRUCTURE\n---\n";

/// Closes the tree section and opens the file contents.
pub const FILE_CONTENTS_HEADER: &'static str = "---\nFILE CONTENTS\n---\n\n";

/// The whole tree section when no file was selected.
pub const EMPTY_TREE_SECTION: &'static str = "---\nDIRECTORY STRUCTURE (No files selected)\n---\n\n";

/// Stands in for the tree section when the tree could not be rendered.
pub const TREE_ERROR_SECTION: &'static str = "---\nERROR GENERATING DIRECTORY STRUCTURE\n---\n\n";

/// Starts a file header line.
pub const HEADER_PREFIX: &'static str = "--- FILE: ";

/// Byte length of a text in UTF-8.
pub open spec fn byte_len(s: Seq<char>) -> int {
    encode_utf8(s).len() as int
}

/// Shifts a range by `offset`.
pub fn offset_range(range: &Range<usize>, offset: usize) -> (r: Range<usize>)
    requires
        range.start + offset <= usize::MAX,
        range.end + offset <= usize::MAX,
    ensures
        r.start == range.start + offset,
        r.end == range.end + offset,
{
    (range.start + offset)..(range.end + offset)
}

/// The path shown for a file: relative to the repository root in repository
/// mode, to the target path otherwise; the full path when it lies elsewhere.
pub open spec fn display_path(
    file: Seq<char>,
    repo_root: Option<Seq<char>>,
    target_path: Seq<char>,
    no_git: bool,
) -> Seq<char> {
    let base = match repo_root {
        Some(r) => if no_git {
            target_path
        } else {
            r
        },
        None => target_path,
    };
    match strip_base(base, file) {
        Some(rel) => rel,
        None => file,
    }
}

/// Computes the path shown for a file (see `display_path`).
pub fn display_path_for(file: &str, repo_root: Option<&str>, target_path: &str, no_git: bool) -> (r:
    String)
    ensures
        r@ == display_path(
            file@,
            match repo_root {
                Some(x) => Some(x@),
                None => None,
            },
            target_path@,
            no_git,
        ),
{
    let base = match repo_root {
        Some(r) => if no_git {
            target_path
        } else {
            r
        },
        None => target_path,
    };
    match strip_base_of(base, file) {
        Some(rel) => rel,
        None => String::from_str(file),
    }
}

/// How a file's text was obtained.
#[derive(Debug, Clone, Copy, PartialEq, Eq, Structural)]
pub enum SectionKind {
    /// Read as UTF-8 text.
    Text,
    /// Extracted from a PDF document.
    ExtractedPdf,
}

/// The header line of a file section.
pub open spec fn header_line(display: Seq<char>, kind: SectionKind) -> Seq<char> {
    HEADER_PREFIX@ + display + (match kind {
        SectionKind::Text => " ---\n"@,
        SectionKind::ExtractedPdf => " (extracted text) ---\n"@,
    })
}

/// A file's text as it stands in the output: ended by a newline, then one blank
/// line.
pub open spec fn body_block(body: Seq<char>) -> Seq<char> {
    body + (if body.len() > 0 && body.last() == '\n' {
        seq![]
    } else {
        seq!['\n']
    }) + seq!['\n']
}

/// Appends one file's section to `buf` (a header if asked for, then the
/// text) and tells where its parts are, in bytes.
pub fn append_file_section(
    buf: &mut String,
    display: &str,
    body: &str,
    kind: SectionKind,
    add_headers: bool,
) -> (r: GrabbedFile)
    ensures
        final(buf)@ == old(buf)@ + (if add_headers {
            header_line(display@, kind)
        } else {
            seq![]
        }) + body_block(body@),
        r.display_path@ == display@,
        r.full_range.start == byte_len(old(buf)@) as usize,
        r.full_range.end == byte_len(final(buf)@) as usize,
        r.body_range.end == byte_len(final(buf)@) as usize,
        add_headers ==> (r.header_range matches Some(h) && h.start == byte_len(old(buf)@) as usize
            && h.end == byte_len(old(buf)@ + header_line(display@, kind)) as usize
            && r.body_range.start == h.end),
        !add_headers ==> r.header_range is None && r.body_range.start == byte_len(old(buf)@) as usize,
{
    let ghost start = buf@;
    let full_start = buf.as_str().len();
    let mut header_range: Option<Range<usize>> = None;
    if add_headers {
        buf.append(HEADER_PREFIX);
        buf.append(display);
        match kind {
            SectionKind::Text => buf.append(" ---\n"),
            SectionKind::ExtractedPdf => buf.append(" (extracted text) ---\n"),
        }
        assert(buf@ =~= start + header_line(display@, kind));
        header_range = Some(full_start..buf.as_str().len());
    }
    let ghost mid = buf@;
    let body_start = buf.as_str().len();
    buf.append(body);
    let n = body.unicode_len();
    proof {
        reveal_strlit("\n");
    }
    if n == 0 || body.get_char(n - 1) != '\n' {
        buf.append("\n");
    }
    buf.append("\n");
    assert(buf@ =~= mid + body_block(body@));
    assert(buf@ =~= start + (if add_headers {
        header_line(display@, kind)
    } else {
        seq![]
    }) + body_block(body@));
    let end = buf.as_str().len();
    GrabbedFile {
        display_path: String::from_str(display),
        full_range: full_start..end,
        header_range,
        body_range: body_start..end,
    }
}

/// The note left for a PDF whose text could not be extracted.
pub open spec fn extraction_failed_note(display: Seq<char>) -> Seq<char> {
    HEADER_PREFIX@ + display + " (PDF extraction failed) ---\n\n"@
}

/// Appends the note of a failed PDF extraction, if headers are asked for.
pub fn append_extraction_failure(buf: &mut String, display: &str, add_headers: bool)
    ensures
        final(buf)@ == old(buf)@ + (if add_headers {
            extraction_failed_note(display@)
        } else {
            seq![]
        }),
{
    if add_headers {
        buf.append(HEADER_PREFIX);
        buf.append(display);
        buf.append(" (PDF extraction failed) ---\n\n");
    }
}

/// The tree section around a rendered tree.
pub open spec fn tree_section(tree: Seq<char>) -> Seq<char> {
    TREE_HEADER@ + tree + "\n"@ + FILE_CONTENTS_HEADER@
}

/// Builds the tree section around a rendered tree (see `tree_section`).
pub fn make_tree_section(tree: &str) -> (r: String)
    ensures
        r@ == tree_section(tree@),
{
    let mut out = String::from_str(TREE_HEADER);
    out.append(tree);
    out.append("\n");
    out.append(FILE_CONTENTS_HEADER);
    out
}

/// `needle` occurs in `hay` at position `i`.
pub open spec fn occurs_at(hay: Seq<char>, needle: Seq<char>, i: int) -> bool {
    0 <= i && i + needle.len() <= hay.len() && hay.subrange(i, i + needle.len()) == needle
}

/// The first position at or after `i` where `needle` occurs in `hay`.
pub open spec fn find_from(hay: Seq<char>, needle: Seq<char>, i: int) -> Option<int>
    decreases hay.len() + 1 - i,
{
    if i < 0 || i + needle.len() > hay.len() {
        None
    } else if occurs_at(hay, needle, i) {
        Some(i)
    } else {
        find_from(hay, needle, i + 1)
    }
}

/// The output without its tree section: what follows the first file contents
/// marker, or everything when there is none.
pub open spec fn without_tree(content: Seq<char>) -> Seq<char> {
    match find_from(content, FILE_CONTENTS_HEADER@, 0) {
        Some(i) => content.skip(i + FILE_CONTENTS_HEADER@.len()),
        None => content,
    }
}

/// Drops the tree section of an output (see `without_tree`).
pub fn strip_tree_section(content: &str) -> (r: String)
    ensures
        r@ == without_tree(content@),
{
    let hn = content.unicode_len();
    let nn = FILE_CONTENTS_HEADER.unicode_len();
    if nn > hn {
        return String::from_str(content);
    }
    let mut i: usize = 0;
    while i <= hn - nn
        invariant
            nn <= hn,
            i <= hn - nn,
            hn == content@.len(),
            nn == FILE_CONTENTS_HEADER@.len(),
            find_from(content@, FILE_CONTENTS_HEADER@, i as int) == find_from(
                content@,
                FILE_CONTENTS_HEADER@,
                0,
            ),
        decreases hn - nn - i,
    {
        let mut k: usize = 0;
        let mut same = true;
        while k < nn
            invariant
                hn == content@.len(),
                nn == FILE_CONTENTS_HEADER@.len(),
                i + nn <= hn,
                k <= nn,
                same ==> forall|m: int| 0 <= m < k ==> content@[i + m] == FILE_CONTENTS_HEADER@[m],
                !same ==> content@.subrange(i as int, i + nn) != FILE_CONTENTS_HEADER@,
            decreases nn - k,
        {
            if same && content.get_char(i + k) != FILE_CONTENTS_HEADER.get_char(k) {
                same = false;
                assert(content@.subrange(i as int, i + nn)[k as int] != FILE_CONTENTS_HEADER@[k as int]);
            }
            k = k + 1;
        }
        if same {
            assert(content@.subrange(i as int, i + nn) =~= FILE_CONTENTS_HEADER@);
            return String::from_str(content.substring_char(i + nn, hn));
        }
        assert(!occurs_at(content@, FILE_CONTENTS_HEADER@, i as int));
        if i == hn - nn {
            assert(find_from(content@, FILE_CONTENTS_HEADER@, i + 1) is None);
            return String::from_str(content);
        }
        i = i + 1;
    }
    String::from_str(content)
}

/// Lines (each with its newline) of `s[start..]` that are not file headers,
/// where `s[start..i]` holds no newline.
pub open spec fn kept_from(s: Seq<char>, start: int, i: int) -> Seq<char>
    decreases s.len() - i,
{
    if i < 0 || i >= s.len() {
        keep_line(s.subrange(start, s.len() as int))
    } else if s[i] == '\n' {
        keep_line(s.subrange(start, i + 1)) + kept_from(s, i + 1, i + 1)
    } else {
        kept_from(s, start, i + 1)
    }
}

/// A line stays unless it is a file header.
pub open spec fn keep_line(line: Seq<char>) -> Seq<char> {
    if HEADER_PREFIX@.is_prefix_of(line) {
        seq![]
    } else {
        line
    }
}

/// The output without its file header lines.
pub open spec fn without_headers(content: Seq<char>) -> Seq<char> {
    kept_from(content, 0, 0)
}

fn starts_with_at(s: &str, from: usize, prefix: &str) -> (r: bool)
    requires
        from <= s@.len(),
    ensures
        r == prefix@.is_prefix_of(s@.subrange(from as int, s@.len() as int)),
{
    let n = s.unicode_len();
    let pn = prefix.unicode_len();
    if pn > n - from {
        return false;
    }
    let mut k: usize = 0;
    while k < pn
        invariant
            n == s@.len(),
            pn == prefix@.len(),
            from + pn <= n,
            k <= pn,
            forall|m: int| 0 <= m < k ==> s@[from + m] == prefix@[m],
        decreases pn - k,
    {
        if s.get_char(from + k) != prefix.get_char(k) {
            assert(s@.subrange(from as int, s@.len() as int)[k as int] != prefix@[k as int]);
            return false;
        }
        k = k + 1;
    }
    assert(prefix@ =~= s@.subrange(from as int, s@.len() as int).subrange(0, pn as int));
    true
}

fn keep_line_of(s: &str, start: usize, end: usize, out: &mut String)
    requires
        start <= end <= s@.len(),
    ensures
        final(out)@ == old(out)@ + keep_line(s@.subrange(start as int, end as int)),
{
    let line = s.substring_char(start, end);
    if !starts_with_at(line, 0, HEADER_PREFIX) {
        out.append(line);
    }
    assert(line@.subrange(0, line@.len() as int) =~= line@);
}

/// Drops the file header lines of an output (see `without_headers`).
pub fn strip_header_lines(content: &str) -> (r: String)
    ensures
        r@ == without_headers(content@),
{
    let n = content.unicode_len();
    let mut out = String::new();
    let mut start: usize = 0;
    let mut i: usize = 0;
    while i < n
        invariant
            n == content@.len(),
            start <= i <= n,
            out@ + kept_from(content@, start as int, i as int) == without_headers(content@),
        decreases n - i,
    {
        if content.get_char(i) == '\n' {
            let ghost before = out@;
            keep_line_of(content, start, i + 1, &mut out);
            assert(out@ + kept_from(content@, i + 1, i + 1) =~= before + kept_from(
                content@,
                start as int,
                i as int,
            ));
            start = i + 1;
        }
        i = i + 1;
    }
    let ghost before = out@;
    keep_line_of(content, start, n, &mut out);
    assert(out@ =~= before + kept_from(content@, start as int, n as int));
    out
}

/// Every range of every file fits in `usize` once shifted by `offset`.
pub open spec fn shiftable(files: Seq<GrabbedFile>, offset: int) -> bool {
    forall|i: int|
        0 <= i < files.len() ==> {
            &&& #[trigger] files[i].full_range.start + offset <= usize::MAX
            &&& files[i].full_range.end + offset <= usize::MAX
            &&& files[i].body_range.start + offset <= usize::MAX
            &&& files[i].body_range.end + offset <= usize::MAX
            &&& (files[i].header_range matches Some(h) ==> h.start + offset <= usize::MAX && h.end
                + offset <= usize::MAX)
        }
}

/// `b` is `a` placed `offset` bytes further into the output.
pub open spec fn shifted(a: GrabbedFile, b: GrabbedFile, offset: int) -> bool {
    &&& b.display_path@ == a.display_path@
    &&& b.full_range.start == a.full_range.start + offset
    &&& b.full_range.end == a.full_range.end + offset
    &&& b.body_range.start == a.body_range.start + offset
    &&& b.body_range.end == a.body_range.end + offset
    &&& match a.header_range {
        Some(h) => b.header_range matches Some(g) && g.start == h.start + offset && g.end == h.end
            + offset,
        None => b.header_range is None,
    }
}

/// Moves the places of `files` by `offset` bytes, for text put in front of
/// the file sections.
pub fn shift_segments(files: Vec<GrabbedFile>, offset: usize) -> (r: Vec<GrabbedFile>)
    requires
        shiftable(files@, offset as int),
    ensures
        r@.len() == files@.len(),
        forall|i: int| 0 <= i < files@.len() ==> shifted(files@[i], #[trigger] r@[i], offset as int),
{
    let mut out: Vec<GrabbedFile> = Vec::new();
    let mut i: usize = 0;
    while i < files.len()
        invariant
            i <= files.len(),
            shiftable(files@, offset as int),
            out@.len() == i,
            forall|j: int| 0 <= j < i ==> shifted(files@[j], #[trigger] out@[j], offset as int),
        decreases files.len() - i,
    {
        let f = &files[i];
        assert(files@[i as int].full_range.start + offset <= usize::MAX);
        let header_range = match &f.header_range {
            Some(h) => Some(offset_range(h, offset)),
            None => None,
        };
        out.push(
            GrabbedFile {
                display_path: f.display_path.clone(),
                full_range: offset_range(&f.full_range, offset),
                header_range,
                body_range: offset_range(&f.body_range, offset),
            },
        );
        i = i + 1;
    }
    out
}

/// What stands before the file sections: nothing without a tree; the tree
/// section around the rendered tree; or, when the tree could not be rendered,
/// a note saying so.
pub open spec fn tree_prefix(include_tree: bool, tree: Option<Seq<char>>) -> Seq<char> {
    if !include_tree {
        seq![]
    } else {
        match tree {
            Some(t) => tree_section(t),
            None => TREE_ERROR_SECTION@,
        }
    }
}

/// Puts the output together. With no file selected it is the empty-tree
/// section when a tree is asked for, and empty otherwise. Else it is the tree
/// prefix (see `tree_prefix`; `tree` is `None` when rendering failed) followed
/// by the file sections, whose places move by the prefix's length.
pub fn assemble_output(include_tree: bool, tree: Option<String>, processed: GrabOutput, any_files: bool) -> (r:
    GrabOutput)
    requires
        any_files ==> shiftable(
            processed.files@,
            byte_len(
                tree_prefix(
                    include_tree,
                    match tree {
                        Some(t) => Some(t@),
                        None => None,
                    },
                ),
            ),
        ),
    ensures
        !any_files && include_tree ==> r.content@ == EMPTY_TREE_SECTION@ && r.files@.len() == 0,
        !any_files && !include_tree ==> r.content@.len() == 0 && r.files@.len() == 0,
        any_files ==> {
            let prefix = tree_prefix(
                include_tree,
                match tree {
                    Some(t) => Some(t@),
                    None => None,
                },
            );
            &&& r.content@ == prefix + processed.content@
            &&& r.files@.len() == processed.files@.len()
            &&& forall|i: int|
                0 <= i < processed.files@.len() ==> shifted(
                    processed.files@[i],
                    #[trigger] r.files@[i],
                    byte_len(prefix),
                )
        },
{
    if !any_files {
        let content = if include_tree {
            String::from_str(EMPTY_TREE_SECTION)
        } else {
            String::new()
        };
        return GrabOutput { content, files: Vec::new() };
    }
    let mut content = if include_tree {
        match &tree {
            Some(t) => make_tree_section(t.as_str()),
            None => String::from_str(TREE_ERROR_SECTION),
        }
    } else {
        String::new()
    };
    let offset = content.as_str().len();
    proof {
        if processed.files@.len() > 0 {
            assert(processed.files@[0].full_range.start + byte_len(content@) <= usize::MAX);
        }
    }
    let files = shift_segments(processed.files, offset);
    content.append(processed.content.as_str());
    GrabOutput { content, files }
}

/// The text that tokens are estimated on: the output, without its tree
/// section and without its header lines where those are present and asked to
/// be left out.
pub open spec fn token_basis_text(
    content: Seq<char>,
    include_tree: bool,
    add_headers: bool,
    exclude_tree: bool,
    exclude_headers: bool,
) -> Seq<char> {
    let a = if exclude_tree && include_tree {
        without_tree(content)
    } else {
        content
    };
    if exclude_headers && add_headers {
        without_headers(a)
    } else {
        a
    }
}

/// Computes the text that tokens are estimated on (see `token_basis_text`).
pub fn token_basis(
    content: &str,
    include_tree: bool,
    add_headers: bool,
    exclude_tree: bool,
    exclude_headers: bool,
) -> (r: String)
    ensures
        r@ == token_basis_text(content@, include_tree, add_headers, exclude_tree, exclude_headers),
{
    let a = if exclude_tree && include_tree {
        strip_tree_section(content)
    } else {
        String::from_str(content)
    };
    if exclude_headers && add_headers {
        strip_header_lines(a.as_str())
    } else {
        a
    }
}

/// The position of the last `.` in `name[..i]`, or -1.
pub open spec fn last_dot(name: Seq<char>, i: int) -> int
    decreases i,
{
    if i <= 0 || i > name.len() {
        -1
    } else if name[i - 1] == '.' {
        i - 1
    } else {
        last_dot(name, i - 1)
    }
}

/// The extension of a file name: what follows its last `.`, unless that dot
/// opens the name.
pub open spec fn extension_of(name: Seq<char>) -> Option<Seq<char>> {
    let d = last_dot(name, name.len() as int);
    if d <= 0 {
        None
    } else {
        Some(name.skip(d + 1))
    }
}

/// The path names a PDF document: its file name's extension is `pdf` in any
/// ASCII case.
pub open spec fn is_pdf_name(path: Seq<char>) -> bool {
    let cs = path_components(path);
    cs.len() > 0 && match extension_of(cs.last()) {
        Some(e) => eq_ignoring_ascii_case(e, "pdf"@),
        None => false,
    }
}

/// Whether the path names a PDF document (see `is_pdf_name`).
pub fn is_pdf_path(path: &str) -> (r: bool)
    ensures
        r == is_pdf_name(path@),
{
    let parts = split_components(path);
    let n = parts.len();
    if n == 0 {
        return false;
    }
    let name = parts[n - 1].as_str();
    assert(name@ == path_components(path@).last());
    let len = name.unicode_len();
    let mut i: usize = len;
    while i > 0
        invariant
            i <= len,
            len == name@.len(),
            last_dot(name@, len as int) == last_dot(name@, i as int),
            name@ == path_components(path@).last(),
            path_components(path@).len() > 0,
        decreases i,
    {
        if name.get_char(i - 1) == '.' {
            assert(last_dot(name@, i as int) == i - 1);
            if i - 1 == 0 {
                return false;
            }
            let ext = name.substring_char(i, len);
            assert(ext@ =~= name@.skip(i as int));
            return eq_ignore_ascii_case_str(ext, "pdf");
        }
        i = i - 1;
    }
    false
}

} // verus!

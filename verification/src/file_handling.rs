//! A snapshot model of a directory subtree, and the recursive first-match
//! file search over it.
//!
//! A snapshot is taken by the caller before a batch runs: every file carries
//! its canonical path and, when it was readable as text, its contents. An
//! unreadable directory is snapshotted without entries, and an unreadable
//! file with `content` of `None` — both therefore yield "no match", exactly
//! as a read failure does during a live search.
use vstd::prelude::*;
use crate::text::{first_line_matching, lines_of, str_eq, to_chars};

verus! {

broadcast use vstd::seq::axiom_seq_index_decreases, vstd::std_specs::vec::axiom_vec_index_decreases;

/// One subtree of the filesystem, as seen when the snapshot was taken.
pub enum FsTree {
    /// A regular file (or anything else that is not a directory): its
    /// canonical path, and its text contents if they could be read.
    File { path: String, content: Option<String> },
    /// A directory and its entries, in the order the filesystem reported
    /// them.
    Dir { entries: Vec<FsTree> },
}

/// What a search reports about one file: its canonical path and contents.
pub struct FileView {
    pub path: Seq<char>,
    pub content: Option<Seq<char>>,
}

/// The files of the subtree, depth first, in snapshot order.
pub open spec fn files_of(t: FsTree) -> Seq<FileView>
    decreases t,
{
    match t {
        FsTree::File { path, content } => seq![
            FileView {
                path: path@,
                content: match content {
                    Some(c) => Some(c@),
                    None => None,
                },
            },
        ],
        FsTree::Dir { entries } => files_of_prefix(entries@, entries@.len() as int),
    }
}

/// The files of the first `n` entries, depth first.
pub open spec fn files_of_prefix(es: Seq<FsTree>, n: int) -> Seq<FileView>
    decreases es, n,
{
    if n <= 0 || n > es.len() {
        Seq::<FileView>::empty()
    } else {
        files_of_prefix(es, n - 1) + files_of(es[n - 1])
    }
}

/// What became of the explicitly requested file when the snapshot was
/// taken. The three states must be kept apart: a file that was requested
/// but whose canonical path could not be resolved is `Unresolved`, and a
/// search then finds nothing for that language — the confinement never
/// silently widens into a search of the whole subtree.
pub enum TargetFile {
    /// The target description names no file.
    Unspecified,
    /// A file was requested, but its canonical path could not be resolved
    /// (it does not exist, or the path cannot be read).
    Unresolved,
    /// The canonical path of the requested file; the search is confined to
    /// exactly this file.
    At(String),
}

/// One language's share of the snapshot: the subtree under
/// `base/<language>`, or `None` where that directory is missing, and the
/// fate of the explicitly requested file under it.
pub struct LangRoot {
    pub root: Option<FsTree>,
    pub target: TargetFile,
}

/// What resolving one language's target yields: the matched file's canonical
/// path, the anchor line's index when an anchor was searched for, and the
/// file's contents as snapshotted, for the mutation step to start from.
pub struct FileSearchResult {
    pub file: String,
    pub line: Option<usize>,
    pub content: Option<String>,
}

/// The mathematical shadow of a `FileSearchResult`.
pub struct MatchView {
    pub path: Seq<char>,
    pub line: Option<int>,
    pub content: Option<Seq<char>>,
}

pub open spec fn opt_ref_view(o: Option<&String>) -> Option<Seq<char>> {
    match o {
        Some(s) => Some(s@),
        None => None,
    }
}

pub open spec fn opt_string_view(o: Option<String>) -> Option<Seq<char>> {
    match o {
        Some(s) => Some(s@),
        None => None,
    }
}

pub open spec fn opt_line_view(o: Option<usize>) -> Option<int> {
    match o {
        Some(i) => Some(i as int),
        None => None,
    }
}

pub open spec fn result_view(r: FileSearchResult) -> MatchView {
    MatchView { path: r.file@, line: opt_line_view(r.line), content: opt_string_view(r.content) }
}

pub open spec fn opt_result_view(r: Option<FileSearchResult>) -> Option<MatchView> {
    match r {
        Some(m) => Some(result_view(m)),
        None => None,
    }
}

/// Whether one file satisfies the target description, and what the match
/// reports. With an explicit `file`, a different path never matches, and an
/// equal path without an anchor matches with no line. With an anchor, the
/// file matches when some line of its readable contents starts with it, and
/// the first such line is reported; unreadable contents never match. At
/// least one of `file` and `tag` must be given for the description to mean
/// anything; without both, nothing matches.
pub open spec fn spec_match_file(f: FileView, file: Option<Seq<char>>, tag: Option<Seq<char>>) -> Option<
    MatchView,
> {
    if file is Some && f.path != file->Some_0 {
        None
    } else if file is Some && tag is None {
        Some(MatchView { path: f.path, line: None, content: f.content })
    } else if tag is Some {
        match f.content {
            Some(c) => match first_line_matching(lines_of(c), tag->Some_0) {
                Some(i) => Some(MatchView { path: f.path, line: Some(i), content: Some(c) }),
                None => None,
            },
            None => None,
        }
    } else {
        None
    }
}

/// The first match among the files, in order.
pub open spec fn first_match(
    fs: Seq<FileView>,
    file: Option<Seq<char>>,
    tag: Option<Seq<char>>,
) -> Option<MatchView>
    decreases fs.len(),
{
    if fs.len() == 0 {
        None
    } else {
        match spec_match_file(fs[0], file, tag) {
            Some(m) => Some(m),
            None => first_match(fs.drop_first(), file, tag),
        }
    }
}

/// What searching a subtree yields: the first match, depth first, in
/// snapshot order.
pub open spec fn spec_find_file(t: FsTree, file: Option<Seq<char>>, tag: Option<Seq<char>>) -> Option<
    MatchView,
> {
    first_match(files_of(t), file, tag)
}

pub proof fn lemma_first_match_concat(
    a: Seq<FileView>,
    b: Seq<FileView>,
    file: Option<Seq<char>>,
    tag: Option<Seq<char>>,
)
    ensures
        first_match(a + b, file, tag) == match first_match(a, file, tag) {
            Some(m) => Some(m),
            None => first_match(b, file, tag),
        },
    decreases a.len(),
{
    if a.len() == 0 {
        assert(a + b =~= b);
    } else {
        assert((a + b)[0] == a[0]);
        assert((a + b).drop_first() =~= a.drop_first() + b);
        lemma_first_match_concat(a.drop_first(), b, file, tag);
    }
}

pub proof fn lemma_first_match_some(
    fs: Seq<FileView>,
    file: Option<Seq<char>>,
    tag: Option<Seq<char>>,
    i: int,
)
    requires
        0 <= i < fs.len(),
        spec_match_file(fs[i], file, tag) is Some,
        forall|j: int| 0 <= j < i ==> spec_match_file(#[trigger] fs[j], file, tag) is None,
    ensures
        first_match(fs, file, tag) == spec_match_file(fs[i], file, tag),
    decreases i,
{
    if i > 0 {
        lemma_first_match_some(fs.drop_first(), file, tag, i - 1);
    }
}

/// A match found for an anchor search always carries the anchor line's
/// index and the file's contents.
pub proof fn lemma_first_match_tag(
    fs: Seq<FileView>,
    file: Option<Seq<char>>,
    tag: Option<Seq<char>>,
)
    requires
        tag is Some,
        first_match(fs, file, tag) is Some,
    ensures
        first_match(fs, file, tag)->Some_0.line is Some,
        first_match(fs, file, tag)->Some_0.content is Some,
    decreases fs.len(),
{
    if fs.len() > 0 && spec_match_file(fs[0], file, tag) is None {
        lemma_first_match_tag(fs.drop_first(), file, tag);
    }
}

/// Over a subtree in which exactly one file satisfies the target
/// description, the search returns that file's match, at whatever depth the
/// file stands.
pub proof fn lemma_locate_unique(
    t: FsTree,
    file: Option<Seq<char>>,
    tag: Option<Seq<char>>,
    i: int,
)
    requires
        0 <= i < files_of(t).len(),
        spec_match_file(files_of(t)[i], file, tag) is Some,
        forall|j: int|
            0 <= j < files_of(t).len() && j != i ==> spec_match_file(
                #[trigger] files_of(t)[j],
                file,
                tag,
            ) is None,
    ensures
        spec_find_file(t, file, tag) == spec_match_file(files_of(t)[i], file, tag),
{
    lemma_first_match_some(files_of(t), file, tag, i);
}

/// Over a subtree without files — an empty directory in particular — the
/// search returns nothing.
pub proof fn lemma_locate_empty(t: FsTree, file: Option<Seq<char>>, tag: Option<Seq<char>>)
    requires
        files_of(t).len() == 0,
    ensures
        spec_find_file(t, file, tag) is None,
{
}

/// Whether this file node satisfies the target description; see
/// `spec_match_file`.
fn match_file_node(
    path: &String,
    content: &Option<String>,
    file: Option<&String>,
    tag: Option<&String>,
) -> (r: Option<FileSearchResult>)
    ensures
        opt_result_view(r) == spec_match_file(
            FileView { path: path@, content: opt_string_view(*content) },
            opt_ref_view(file),
            opt_ref_view(tag),
        ),
{
    if let Some(target) = file {
        if !str_eq(path.as_str(), target.as_str()) {
            return None;
        }
        if tag.is_none() {
            return Some(
                FileSearchResult { file: path.clone(), line: None, content: content.clone() },
            );
        }
    }
    if let Some(needle) = tag {
        match content {
            Some(c) => {
                let chars = to_chars(c.as_str());
                let ls = crate::text::split_lines(&chars);
                let needle_chars = to_chars(needle.as_str());
                match crate::text::find_matching_line(&ls, &needle_chars) {
                    Some(i) => Some(
                        FileSearchResult {
                            file: path.clone(),
                            line: Some(i),
                            content: Some(c.clone()),
                        },
                    ),
                    None => None,
                }
            },
            None => None,
        }
    } else {
        None
    }
}

/// Searches the subtree depth first, in snapshot order, for the first file
/// that satisfies the target description; see `spec_find_file`. Mirrors a
/// live recursive directory walk in which an unreadable directory simply
/// contributes no matches.
#[verifier::loop_isolation(false)]
pub fn find_file(t: &FsTree, file: Option<&String>, tag: Option<&String>) -> (r: Option<
    FileSearchResult,
>)
    ensures
        opt_result_view(r) == spec_find_file(*t, opt_ref_view(file), opt_ref_view(tag)),
    decreases *t,
{
    match t {
        FsTree::File { path, content } => {
            let m = match_file_node(path, content, file, tag);
            proof {
                let fv = FileView { path: path@, content: opt_string_view(*content) };
                assert(files_of(*t) =~= seq![fv]);
                assert(files_of(*t)[0] == fv);
                assert(files_of(*t).drop_first() =~= Seq::<FileView>::empty());
                assert(first_match(
                    Seq::<FileView>::empty(),
                    opt_ref_view(file),
                    opt_ref_view(tag),
                ) is None);
            }
            m
        },
        FsTree::Dir { entries } => {
            let ghost es = entries@;
            let mut i: usize = 0;
            while i < entries.len()
                invariant
                    i <= es.len(),
                    es == entries@,
                    first_match(
                        files_of_prefix(es, i as int),
                        opt_ref_view(file),
                        opt_ref_view(tag),
                    ) is None,
                decreases es.len() - i,
            {
                let sub = find_file(&entries[i], file, tag);
                proof {
                    lemma_first_match_concat(
                        files_of_prefix(es, i as int),
                        files_of(es[i as int]),
                        opt_ref_view(file),
                        opt_ref_view(tag),
                    );
                }
                if let Some(m) = sub {
                    proof {
                        lemma_files_of_prefix_extends(es, i + 1 as int, es.len() as int);
                        lemma_first_match_concat(
                            files_of_prefix(es, i + 1 as int),
                            files_of_range(es, i + 1 as int, es.len() as int),
                            opt_ref_view(file),
                            opt_ref_view(tag),
                        );
                        assert(files_of(*t) == files_of_prefix(es, es.len() as int));
                    }
                    return Some(m);
                }
                i = i + 1;
            }
            proof {
                assert(files_of(*t) == files_of_prefix(es, es.len() as int));
            }
            None
        },
    }
}

/// The files of the entries from `m` (inclusive) to `n` (exclusive).
pub open spec fn files_of_range(es: Seq<FsTree>, m: int, n: int) -> Seq<FileView>
    decreases es, n - m,
{
    if m < 0 || m >= n || n > es.len() {
        Seq::<FileView>::empty()
    } else {
        files_of_range(es, m, n - 1) + files_of(es[n - 1])
    }
}

/// A longer prefix is a shorter one followed by the files in between.
pub proof fn lemma_files_of_prefix_extends(es: Seq<FsTree>, m: int, n: int)
    requires
        0 <= m <= n <= es.len(),
    ensures
        files_of_prefix(es, n) == files_of_prefix(es, m) + files_of_range(es, m, n),
    decreases n - m,
{
    if m == n {
        assert(files_of_prefix(es, n) =~= files_of_prefix(es, m) + files_of_range(es, m, n));
    } else {
        lemma_files_of_prefix_extends(es, m, n - 1);
        assert(files_of_prefix(es, m) + files_of_range(es, m, n) =~= (files_of_prefix(es, m)
            + files_of_range(es, m, n - 1)) + files_of(es[n - 1]));
    }
}

} // verus!

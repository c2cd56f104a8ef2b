//! Parsing language/payload records, resolving the target file (and line)
//! for each language, and the batch operations that compute the edits.
use vstd::prelude::*;
use crate::Input;
use crate::file_handling::{
    find_file, opt_ref_view, opt_result_view, opt_string_view, spec_find_file, FileSearchResult,
    LangRoot, MatchView, TargetFile,
};
use crate::text::{
    chars_to_string, copy_prefix, copy_suffix, find_char, find_matching_line, first_index_of,
    first_line_matching, lines_of, push_chars, quote_chars, spec_quote, split_lines, str_eq,
    to_chars, views_of,
};

verus! {

/// What went wrong while parsing records or resolving and editing targets.
#[derive(Debug)]
pub enum Error {
    /// A record line holds no separator between language code and payload.
    NoSeparator,
    /// No file (and, when an anchor was asked for, no line) satisfies a
    /// language's target description; carries the full diagnostic context.
    TagSearchFailed { base: String, tag: Option<String>, file: Option<String>, language: String },
    /// A resolved language has no generated snippet; checked defensively,
    /// though the languages acted upon are exactly the parsed ones.
    LangNoFound,
    /// A file resolved for editing had unreadable contents.
    Io { path: String },
}

/// A target description: an anchor line prefix, and optionally an explicit
/// file to confine the search to.
#[derive(Debug)]
pub struct FindSpecified {
    pub needle: String,
    pub file: Option<String>,
}

/// The rendered snippet for one record: `var_name`, `=`, and the quoted
/// payload.
pub open spec fn spec_snippet(var_name: Seq<char>, payload: Seq<char>) -> Seq<char> {
    var_name + seq!['='] + spec_quote(payload)
}

/// The (language, snippet) pair a record line parses to; meaningful when the
/// line has a separator.
pub open spec fn spec_record(line: Seq<char>, var_name: Seq<char>) -> (Seq<char>, Seq<char>) {
    let i = first_index_of(line, ',')->Some_0;
    (line.take(i), spec_snippet(var_name, line.skip(i + 1)))
}

/// Do all the lines carry a separator?
pub open spec fn all_records_ok(ls: Seq<Seq<char>>) -> bool {
    forall|j: int| 0 <= j < ls.len() ==> (#[trigger] first_index_of(ls[j], ',')) is Some
}

/// The records of all the lines, in order.
pub open spec fn spec_records(ls: Seq<Seq<char>>, var_name: Seq<char>) -> Seq<
    (Seq<char>, Seq<char>),
> {
    Seq::new(ls.len(), |j: int| spec_record(ls[j], var_name))
}

/// The views of a sequence of string pairs.
pub open spec fn pair_views(v: Seq<(String, String)>) -> Seq<(Seq<char>, Seq<char>)> {
    Seq::new(v.len(), |i: int| (v[i].0@, v[i].1@))
}

/// Parses one record line: everything before the first `,` is the language
/// code, the rest of the line is the payload, which is rendered as
/// `var_name=` followed by the quoted payload. A line without `,` is
/// rejected.
pub fn process_language_text(line: &str, var_name: &str) -> (r: Result<(String, String), Error>)
    ensures
        match first_index_of(line@, ',') {
            Some(_) => r is Ok && (r->Ok_0.0@, r->Ok_0.1@) == spec_record(line@, var_name@),
            None => r is Err && r->Err_0 is NoSeparator,
        },
{
    let chars = to_chars(line);
    match find_char(&chars, ',') {
        None => Err(Error::NoSeparator),
        Some(i) => {
            let n = chars.len();
            assert(i < n);
            let lang = copy_prefix(&chars, i);
            let payload = copy_suffix(&chars, i + 1);
            let mut snippet = to_chars(var_name);
            snippet.push('=');
            let q = quote_chars(&payload);
            push_chars(&mut snippet, &q);
            proof {
                assert(snippet@ =~= spec_snippet(var_name@, line@.skip(i + 1 as int)));
            }
            Ok((chars_to_string(&lang), chars_to_string(&snippet)))
        },
    }
}

/// Parses a whole text block of record lines, in order, keeping duplicate
/// language codes as they come. The first line without a separator aborts
/// the parse: no partial list is handed out.
pub fn gen_language_text(text: &str, var_name: &str) -> (r: Result<Vec<(String, String)>, Error>)
    ensures
        ({
            let ls = lines_of(text@);
            match r {
                Ok(v) => all_records_ok(ls) && pair_views(v@) == spec_records(ls, var_name@),
                Err(e) => e is NoSeparator && !all_records_ok(ls),
            }
        }),
{
    let chars = to_chars(text);
    let ls = split_lines(&chars);
    let ghost lsv = lines_of(text@);
    let mut out: Vec<(String, String)> = Vec::new();
    let mut j: usize = 0;
    while j < ls.len()
        invariant
            j <= ls@.len(),
            views_of(ls@) == lsv,
            lsv == lines_of(text@),
            forall|k: int| 0 <= k < j ==> (#[trigger] first_index_of(lsv[k], ',')) is Some,
            pair_views(out@) == spec_records(lsv, var_name@).take(j as int),
        decreases ls@.len() - j,
    {
        let line = chars_to_string(&ls[j]);
        assert(line@ == lsv[j as int]);
        match process_language_text(line.as_str(), var_name) {
            Err(e) => {
                proof {
                    assert(first_index_of(lsv[j as int], ',') is None);
                    assert(!all_records_ok(lsv));
                }
                return Err(e);
            },
            Ok(p) => {
                let ghost old_out = out@;
                out.push(p);
                proof {
                    let recs = spec_records(lsv, var_name@);
                    assert(pair_views(old_out).len() == old_out.len());
                    assert(old_out.len() == j as int);
                    assert(out@ == old_out.push(p));
                    assert forall|k: int| 0 <= k < j + 1 implies #[trigger] pair_views(out@)[k]
                        == recs.take(j + 1 as int)[k] by {
                        if k < j {
                            assert(out@[k] == old_out[k]);
                            assert(pair_views(old_out)[k] == recs.take(j as int)[k]);
                        } else {
                            assert(out@[k] == p);
                        }
                    }
                    assert(pair_views(out@) =~= recs.take(j + 1 as int));
                }
            },
        }
        j = j + 1;
    }
    proof {
        assert(spec_records(lsv, var_name@).take(j as int) =~= spec_records(lsv, var_name@));
    }
    Ok(out)
}

/// The value paired with the first occurrence of `lang`, if any.
pub open spec fn spec_find_match<T>(vals: Seq<(String, T)>, lang: Seq<char>) -> Option<T>
    decreases vals.len(),
{
    if vals.len() == 0 {
        None
    } else if vals[0].0@ == lang {
        Some(vals[0].1)
    } else {
        spec_find_match(vals.drop_first(), lang)
    }
}

pub proof fn lemma_find_match_some<T>(vals: Seq<(String, T)>, lang: Seq<char>, i: int)
    requires
        0 <= i < vals.len(),
        vals[i].0@ == lang,
        forall|k: int| 0 <= k < i ==> (#[trigger] vals[k]).0@ != lang,
    ensures
        spec_find_match(vals, lang) == Some(vals[i].1),
    decreases i,
{
    if i > 0 {
        lemma_find_match_some(vals.drop_first(), lang, i - 1);
    }
}

pub proof fn lemma_find_match_none<T>(vals: Seq<(String, T)>, lang: Seq<char>)
    requires
        forall|k: int| 0 <= k < vals.len() ==> (#[trigger] vals[k]).0@ != lang,
    ensures
        spec_find_match(vals, lang) is None,
    decreases vals.len(),
{
    if vals.len() > 0 {
        lemma_find_match_none(vals.drop_first(), lang);
    }
}

/// The value paired with the first occurrence of `lang` in `values`.
pub fn find_match<'a, T>(lang: &str, values: &'a Vec<(String, T)>) -> (r: Option<&'a T>)
    ensures
        match r {
            Some(t) => spec_find_match(values@, lang@) == Some(*t),
            None => spec_find_match(values@, lang@) is None,
        },
{
    let mut j: usize = 0;
    while j < values.len()
        invariant
            j <= values@.len(),
            forall|k: int| 0 <= k < j ==> (#[trigger] values@[k]).0@ != lang@,
        decreases values@.len() - j,
    {
        let pair = &values[j];
        if str_eq(lang, pair.0.as_str()) {
            proof {
                lemma_find_match_some(values@, lang@, j as int);
            }
            return Some(&pair.1);
        }
        j = j + 1;
    }
    proof {
        lemma_find_match_none(values@, lang@);
    }
    None
}

/// The mathematical shadow of an `Error`.
pub enum ErrorView {
    NoSeparator,
    TagSearchFailed {
        base: Seq<char>,
        tag: Option<Seq<char>>,
        file: Option<Seq<char>>,
        language: Seq<char>,
    },
    LangNoFound,
    Io { path: Seq<char> },
}

pub open spec fn error_view(e: Error) -> ErrorView {
    match e {
        Error::NoSeparator => ErrorView::NoSeparator,
        Error::TagSearchFailed { base, tag, file, language } => ErrorView::TagSearchFailed {
            base: base@,
            tag: opt_string_view(tag),
            file: opt_string_view(file),
            language: language@,
        },
        Error::LangNoFound => ErrorView::LangNoFound,
        Error::Io { path } => ErrorView::Io { path: path@ },
    }
}

pub open spec fn res_view(r: Result<FileSearchResult, Error>) -> Result<MatchView, ErrorView> {
    match r {
        Ok(m) => Ok(crate::file_handling::result_view(m)),
        Err(e) => Err(error_view(e)),
    }
}

/// `base` and `lang` joined as one path.
pub open spec fn spec_path_join(base: Seq<char>, lang: Seq<char>) -> Seq<char> {
    base + seq!['/'] + lang
}

/// Joins a base directory and an entry name with `/`.
pub fn join_path(base: &str, name: &str) -> (r: String)
    ensures
        r@ == spec_path_join(base@, name@),
{
    let mut chars = to_chars(base);
    chars.push('/');
    let rest = to_chars(name);
    push_chars(&mut chars, &rest);
    assert(chars@ =~= spec_path_join(base@, name@));
    chars_to_string(&chars)
}

/// Where a language's target stands in its snapshot: the language's
/// snapshot is looked up by name, its subtree searched, confined to the
/// snapshot's resolved target file when one was requested, by the anchor
/// `tag` when one is given. A requested file whose path could not be
/// resolved keeps its confinement: nothing matches for that language, and
/// the resolver reports the structured error.
pub open spec fn spec_locate_lang(
    snaps: Seq<(String, LangRoot)>,
    lang: Seq<char>,
    tag: Option<Seq<char>>,
) -> Option<MatchView> {
    match spec_find_match(snaps, lang) {
        Some(lr) => match lr.root {
            Some(tree) => match lr.target {
                TargetFile::Unspecified => spec_find_file(tree, None, tag),
                TargetFile::Unresolved => None,
                TargetFile::At(p) => spec_find_file(tree, Some(p@), tag),
            },
            None => None,
        },
        None => None,
    }
}

/// As `spec_locate_lang`, with a missing target reported as the structured
/// error that carries the full diagnostic context.
pub open spec fn spec_resolve_lang(
    snaps: Seq<(String, LangRoot)>,
    base: Seq<char>,
    lang: Seq<char>,
    file: Option<Seq<char>>,
    tag: Option<Seq<char>>,
) -> Result<MatchView, ErrorView> {
    match spec_locate_lang(snaps, lang, tag) {
        Some(m) => Ok(m),
        None => Err(
            ErrorView::TagSearchFailed {
                base: spec_path_join(base, lang),
                tag: tag,
                file: file,
                language: lang,
            },
        ),
    }
}

/// Snapshots in which every target description names a file, resolved or
/// not. Without an anchor, the search has nothing else to go by, so a
/// configuration that names neither is kept out of the verified callers
/// entirely.
pub open spec fn all_targets_specified(snaps: Seq<(String, LangRoot)>) -> bool {
    forall|j: int| 0 <= j < snaps.len() ==> !((#[trigger] snaps[j]).1.target is Unspecified)
}

/// Resolves one language's target over its snapshot; see
/// `spec_locate_lang`. Without an anchor, every snapshot must name its
/// target file, since a search needs at least one of the two; a named file
/// that could not be resolved simply finds nothing.
fn locate_lang(snapshots: &Vec<(String, LangRoot)>, lang: &String, tag: Option<&String>) -> (r:
    Option<FileSearchResult>)
    requires
        tag is None ==> all_targets_specified(snapshots@),
    ensures
        opt_result_view(r) == spec_locate_lang(snapshots@, lang@, opt_ref_view(tag)),
{
    match find_match(lang.as_str(), snapshots) {
        Some(lr) => match &lr.root {
            Some(tree) => match &lr.target {
                TargetFile::Unspecified => find_file(tree, None, tag),
                TargetFile::Unresolved => None,
                TargetFile::At(p) => find_file(tree, Some(p), tag),
            },
            None => None,
        },
        None => None,
    }
}

/// Resolves every language in turn over its snapshot, reporting per
/// language what was found, in the order the languages come in.
pub fn language_base_find_file(
    langs: &Vec<String>,
    snapshots: &Vec<(String, LangRoot)>,
    tag: Option<&String>,
) -> (r: Vec<(String, Option<FileSearchResult>)>)
    requires
        tag is None ==> all_targets_specified(snapshots@),
    ensures
        r@.len() == langs@.len(),
        forall|k: int|
            0 <= k < langs@.len() ==> (#[trigger] r@[k]).0@ == langs@[k]@ && opt_result_view(
                r@[k].1,
            ) == spec_locate_lang(snapshots@, langs@[k]@, opt_ref_view(tag)),
{
    let mut out: Vec<(String, Option<FileSearchResult>)> = Vec::new();
    let mut k: usize = 0;
    while k < langs.len()
        invariant
            k <= langs@.len(),
            out@.len() == k,
            tag is None ==> all_targets_specified(snapshots@),
            forall|j: int|
                0 <= j < k ==> (#[trigger] out@[j]).0@ == langs@[j]@ && opt_result_view(out@[j].1)
                    == spec_locate_lang(snapshots@, langs@[j]@, opt_ref_view(tag)),
        decreases langs@.len() - k,
    {
        let lang = &langs[k];
        let found = locate_lang(snapshots, lang, tag);
        out.push((lang.clone(), found));
        k = k + 1;
    }
    out
}

/// Resolves every language in turn, reporting per language either the match
/// or the structured error; see `spec_resolve_lang`.
pub fn general_find(
    base: &String,
    langs: &Vec<String>,
    snapshots: &Vec<(String, LangRoot)>,
    file: Option<&String>,
    tag: Option<&String>,
) -> (r: Vec<(String, Result<FileSearchResult, Error>)>)
    requires
        tag is None ==> all_targets_specified(snapshots@),
    ensures
        r@.len() == langs@.len(),
        forall|k: int|
            0 <= k < langs@.len() ==> (#[trigger] r@[k]).0@ == langs@[k]@ && res_view(r@[k].1)
                == spec_resolve_lang(
                snapshots@,
                base@,
                langs@[k]@,
                opt_ref_view(file),
                opt_ref_view(tag),
            ),
{
    let mut out: Vec<(String, Result<FileSearchResult, Error>)> = Vec::new();
    let mut k: usize = 0;
    while k < langs.len()
        invariant
            k <= langs@.len(),
            out@.len() == k,
            tag is None ==> all_targets_specified(snapshots@),
            forall|j: int|
                0 <= j < k ==> (#[trigger] out@[j]).0@ == langs@[j]@ && res_view(out@[j].1)
                    == spec_resolve_lang(
                    snapshots@,
                    base@,
                    langs@[j]@,
                    opt_ref_view(file),
                    opt_ref_view(tag),
                ),
        decreases langs@.len() - k,
    {
        let lang = &langs[k];
        let res: Result<FileSearchResult, Error> = match locate_lang(snapshots, lang, tag) {
            Some(m) => Ok(m),
            None => Err(tag_search_error(base, lang, file, tag)),
        };
        out.push((lang.clone(), res));
        k = k + 1;
    }
    out
}

/// The structured error for one unresolved language.
fn tag_search_error(base: &String, lang: &String, file: Option<&String>, tag: Option<&String>) -> (e:
    Error)
    ensures
        error_view(e) == (ErrorView::TagSearchFailed {
            base: spec_path_join(base@, lang@),
            tag: opt_ref_view(tag),
            file: opt_ref_view(file),
            language: lang@,
        }),
{
    Error::TagSearchFailed {
        base: join_path(base.as_str(), lang.as_str()),
        tag: match tag {
            Some(t) => Some(t.clone()),
            None => None,
        },
        file: match file {
            Some(f) => Some(f.clone()),
            None => None,
        },
        language: lang.clone(),
    }
}

/// One computed edit: the file's canonical path and its full new contents.
#[derive(Debug, PartialEq, Eq, Clone)]
pub struct FileWrite {
    pub path: String,
    pub content: String,
}

/// The views of a sequence of writes.
pub open spec fn write_views(ws: Seq<FileWrite>) -> Seq<(Seq<char>, Seq<char>)> {
    Seq::new(ws.len(), |i: int| (ws[i].path@, ws[i].content@))
}

/// The views of a sequence of strings.
pub open spec fn string_views(ss: Seq<String>) -> Seq<Seq<char>> {
    Seq::new(ss.len(), |i: int| ss[i]@)
}

/// The views of resolved search results.
pub open spec fn results_view(rs: Seq<FileSearchResult>) -> Seq<MatchView> {
    Seq::new(rs.len(), |i: int| crate::file_handling::result_view(rs[i]))
}

/// The languages of a record list, in order.
pub open spec fn langs_of(recs: Seq<(Seq<char>, Seq<char>)>) -> Seq<Seq<char>> {
    Seq::new(recs.len(), |i: int| recs[i].0)
}

/// The latest content written to `path`, if any write names it.
pub open spec fn spec_last_write(ws: Seq<(Seq<char>, Seq<char>)>, path: Seq<char>) -> Option<
    Seq<char>,
>
    decreases ws.len(),
{
    if ws.len() == 0 {
        None
    } else if ws.last().0 == path {
        Some(ws.last().1)
    } else {
        spec_last_write(ws.drop_last(), path)
    }
}

/// The value paired with the first occurrence of `lang`, over views.
pub open spec fn spec_lookup(pairs: Seq<(Seq<char>, Seq<char>)>, lang: Seq<char>) -> Option<
    Seq<char>,
>
    decreases pairs.len(),
{
    if pairs.len() == 0 {
        None
    } else if pairs[0].0 == lang {
        Some(pairs[0].1)
    } else {
        spec_lookup(pairs.drop_first(), lang)
    }
}

pub proof fn lemma_lookup_views(vals: Seq<(String, String)>, lang: Seq<char>)
    ensures
        spec_lookup(pair_views(vals), lang) == match spec_find_match(vals, lang) {
            Some(s) => Some(s@),
            None => None,
        },
    decreases vals.len(),
{
    if vals.len() > 0 {
        assert(pair_views(vals).drop_first() =~= pair_views(vals.drop_first()));
        lemma_lookup_views(vals.drop_first(), lang);
    }
}

/// Which of the three line-level edits a batch performs.
#[derive(Clone, Copy)]
pub enum EditOp {
    Append,
    Insert,
    Delete,
}

/// The new contents after one edit. For `Insert` and `Delete` the anchor
/// line's index must be present; the callers establish that an anchor
/// search always yields one.
pub open spec fn spec_edit(op: EditOp, cur: Seq<char>, snippet: Seq<char>, line: Option<int>) -> Seq<
    char,
> {
    match op {
        EditOp::Append => crate::text::spec_append_to_text(cur, snippet),
        EditOp::Insert => crate::text::spec_insert_text_at_line(cur, snippet, line->Some_0),
        EditOp::Delete => crate::text::spec_delete_line(cur, line->Some_0),
    }
}

/// The resolution phase over the first `k` languages: every language's
/// target in turn, stopping at the first that cannot be resolved. No edit
/// is computed unless every language resolves.
pub open spec fn spec_first_resolve(
    snaps: Seq<(String, LangRoot)>,
    base: Seq<char>,
    langs: Seq<Seq<char>>,
    file: Option<Seq<char>>,
    tag: Option<Seq<char>>,
    k: int,
) -> Result<Seq<MatchView>, ErrorView>
    decreases k,
{
    if k <= 0 {
        Ok(Seq::<MatchView>::empty())
    } else {
        match spec_first_resolve(snaps, base, langs, file, tag, k - 1) {
            Err(e) => Err(e),
            Ok(ms) => match spec_resolve_lang(snaps, base, langs[k - 1], file, tag) {
                Ok(m) => Ok(ms.push(m)),
                Err(e) => Err(e),
            },
        }
    }
}

/// The mutation phase over the first `k` resolved targets: each edit starts
/// from the latest content already written to its file in this batch — a
/// language that resolves to an already edited file sees that edit — or
/// else from the snapshot's contents; contents that were unreadable at
/// snapshot time fail the batch, as would the read before the edit.
pub open spec fn spec_plan(
    op: EditOp,
    langs: Seq<Seq<char>>,
    ms: Seq<MatchView>,
    recs: Seq<(Seq<char>, Seq<char>)>,
    k: int,
) -> Result<Seq<(Seq<char>, Seq<char>)>, ErrorView>
    decreases k,
{
    if k <= 0 {
        Ok(Seq::<(Seq<char>, Seq<char>)>::empty())
    } else {
        match spec_plan(op, langs, ms, recs, k - 1) {
            Err(e) => Err(e),
            Ok(ws) => {
                let lang = langs[k - 1];
                let m = ms[k - 1];
                if !(op is Delete) && spec_lookup(recs, lang) is None {
                    Err(ErrorView::LangNoFound)
                } else {
                    let sn = if op is Delete {
                        Seq::<char>::empty()
                    } else {
                        spec_lookup(recs, lang)->Some_0
                    };
                    let cur = match spec_last_write(ws, m.path) {
                        Some(c) => Some(c),
                        None => m.content,
                    };
                    match cur {
                        Some(c) => Ok(ws.push((m.path, spec_edit(op, c, sn, m.line)))),
                        None => Err(ErrorView::Io { path: m.path }),
                    }
                }
            },
        }
    }
}

/// A whole batch: resolve every language, then compute every edit, in
/// language order; the first failure of either phase fails the batch.
pub open spec fn spec_batch(
    op: EditOp,
    snaps: Seq<(String, LangRoot)>,
    base: Seq<char>,
    langs: Seq<Seq<char>>,
    recs: Seq<(Seq<char>, Seq<char>)>,
    file: Option<Seq<char>>,
    tag: Option<Seq<char>>,
) -> Result<Seq<(Seq<char>, Seq<char>)>, ErrorView> {
    match spec_first_resolve(snaps, base, langs, file, tag, langs.len() as int) {
        Err(e) => Err(e),
        Ok(ms) => spec_plan(op, langs, ms, recs, langs.len() as int),
    }
}

proof fn lemma_first_resolve_len(
    snaps: Seq<(String, LangRoot)>,
    base: Seq<char>,
    langs: Seq<Seq<char>>,
    file: Option<Seq<char>>,
    tag: Option<Seq<char>>,
    k: int,
)
    requires
        spec_first_resolve(snaps, base, langs, file, tag, k) is Ok,
        k >= 0,
    ensures
        spec_first_resolve(snaps, base, langs, file, tag, k)->Ok_0.len() == k,
    decreases k,
{
    if k > 0 {
        lemma_first_resolve_len(snaps, base, langs, file, tag, k - 1);
    }
}

proof fn lemma_plan_len(
    op: EditOp,
    langs: Seq<Seq<char>>,
    ms: Seq<MatchView>,
    recs: Seq<(Seq<char>, Seq<char>)>,
    k: int,
)
    requires
        spec_plan(op, langs, ms, recs, k) is Ok,
        k >= 0,
    ensures
        spec_plan(op, langs, ms, recs, k)->Ok_0.len() == k,
        forall|j: int|
            0 <= j < k ==> (#[trigger] spec_plan(op, langs, ms, recs, k)->Ok_0[j]).0 == ms[j].path,
    decreases k,
{
    if k > 0 {
        lemma_plan_len(op, langs, ms, recs, k - 1);
    }
}

/// The set of languages acted upon is exactly the set the batch was given,
/// in the given order: a successful batch computes one write per language,
/// and the write for language `j` names the file that language `j`'s
/// target resolved to.
pub proof fn lemma_one_write_per_language(
    op: EditOp,
    snaps: Seq<(String, LangRoot)>,
    base: Seq<char>,
    langs: Seq<Seq<char>>,
    recs: Seq<(Seq<char>, Seq<char>)>,
    file: Option<Seq<char>>,
    tag: Option<Seq<char>>,
)
    requires
        spec_batch(op, snaps, base, langs, recs, file, tag) is Ok,
    ensures
        spec_batch(op, snaps, base, langs, recs, file, tag)->Ok_0.len() == langs.len(),
        forall|j: int|
            0 <= j < langs.len() ==> (#[trigger] spec_batch(
                op,
                snaps,
                base,
                langs,
                recs,
                file,
                tag,
            )->Ok_0[j]).0 == spec_resolve_lang(snaps, base, langs[j], file, tag)->Ok_0.path,
{
    let n = langs.len() as int;
    let ms = spec_first_resolve(snaps, base, langs, file, tag, n)->Ok_0;
    lemma_first_resolve_len(snaps, base, langs, file, tag, n);
    lemma_plan_len(op, langs, ms, recs, n);
    assert forall|j: int| 0 <= j < n implies ms[j] == spec_resolve_lang(
        snaps,
        base,
        langs[j],
        file,
        tag,
    )->Ok_0 by {
        lemma_first_resolve_at(snaps, base, langs, file, tag, j + 1, n);
    }
}

/// A successful resolution's entry `k - 1` is that language's own
/// resolution.
proof fn lemma_first_resolve_at(
    snaps: Seq<(String, LangRoot)>,
    base: Seq<char>,
    langs: Seq<Seq<char>>,
    file: Option<Seq<char>>,
    tag: Option<Seq<char>>,
    k: int,
    n: int,
)
    requires
        1 <= k <= n,
        spec_first_resolve(snaps, base, langs, file, tag, n) is Ok,
    ensures
        spec_resolve_lang(snaps, base, langs[k - 1], file, tag) is Ok,
        spec_first_resolve(snaps, base, langs, file, tag, n)->Ok_0[k - 1] == spec_resolve_lang(
            snaps,
            base,
            langs[k - 1],
            file,
            tag,
        )->Ok_0,
    decreases n - k,
{
    if k < n {
        lemma_first_resolve_at(snaps, base, langs, file, tag, k, n - 1);
        lemma_first_resolve_len(snaps, base, langs, file, tag, n - 1);
    } else {
        lemma_first_resolve_len(snaps, base, langs, file, tag, n - 1);
    }
}

proof fn lemma_first_resolve_err(
    snaps: Seq<(String, LangRoot)>,
    base: Seq<char>,
    langs: Seq<Seq<char>>,
    file: Option<Seq<char>>,
    tag: Option<Seq<char>>,
    k: int,
    n: int,
)
    requires
        0 <= k <= n,
        spec_first_resolve(snaps, base, langs, file, tag, k) is Err,
    ensures
        spec_first_resolve(snaps, base, langs, file, tag, n) == spec_first_resolve(
            snaps,
            base,
            langs,
            file,
            tag,
            k,
        ),
    decreases n - k,
{
    if k < n {
        lemma_first_resolve_err(snaps, base, langs, file, tag, k, n - 1);
    }
}

proof fn lemma_plan_err(
    op: EditOp,
    langs: Seq<Seq<char>>,
    ms: Seq<MatchView>,
    recs: Seq<(Seq<char>, Seq<char>)>,
    k: int,
    n: int,
)
    requires
        0 <= k <= n,
        spec_plan(op, langs, ms, recs, k) is Err,
    ensures
        spec_plan(op, langs, ms, recs, n) == spec_plan(op, langs, ms, recs, k),
    decreases n - k,
{
    if k < n {
        lemma_plan_err(op, langs, ms, recs, k, n - 1);
    }
}

/// An anchor search that succeeds always reports the anchor line and the
/// file's contents.
proof fn lemma_locate_tag(snaps: Seq<(String, LangRoot)>, lang: Seq<char>, tag: Option<Seq<char>>)
    requires
        tag is Some,
        spec_locate_lang(snaps, lang, tag) is Some,
    ensures
        spec_locate_lang(snaps, lang, tag)->Some_0.line is Some,
        spec_locate_lang(snaps, lang, tag)->Some_0.content is Some,
{
    let lr = spec_find_match(snaps, lang)->Some_0;
    let tree = lr.root->Some_0;
    match lr.target {
        TargetFile::Unspecified => crate::file_handling::lemma_first_match_tag(
            crate::file_handling::files_of(tree),
            None,
            tag,
        ),
        TargetFile::Unresolved => {},
        TargetFile::At(p) => crate::file_handling::lemma_first_match_tag(
            crate::file_handling::files_of(tree),
            Some(p@),
            tag,
        ),
    }
}

/// The latest content this batch has written to `path`, if any.
fn last_write_of(ws: &Vec<FileWrite>, path: &String) -> (r: Option<String>)
    ensures
        opt_string_view(r) == spec_last_write(write_views(ws@), path@),
{
    let ghost wv = write_views(ws@);
    let mut i: usize = ws.len();
    proof {
        assert(wv.take(i as int) =~= wv);
    }
    while i > 0
        invariant
            i <= ws@.len(),
            wv == write_views(ws@),
            spec_last_write(wv, path@) == spec_last_write(wv.take(i as int), path@),
        decreases i,
    {
        i = i - 1;
        proof {
            assert(wv.take(i + 1 as int).last() == wv[i as int]);
            assert(wv.take(i + 1 as int).drop_last() =~= wv.take(i as int));
        }
        if str_eq(ws[i].path.as_str(), path.as_str()) {
            return Some(ws[i].content.clone());
        }
    }
    proof {
        assert(wv.take(0) =~= Seq::<(Seq<char>, Seq<char>)>::empty());
    }
    None
}

/// Resolves every language, then computes every edit, in language order;
/// see `spec_batch`. The languages and parsed records come from the caller;
/// an edit that needs an anchor line is only asked for together with an
/// anchor to search.
#[verifier::loop_isolation(false)]
fn run_batch(
    op: EditOp,
    base: &String,
    file: Option<&String>,
    tag: Option<&String>,
    langs: &Vec<String>,
    texts: &Vec<(String, String)>,
    snapshots: &Vec<(String, LangRoot)>,
) -> (r: Result<Vec<FileWrite>, Error>)
    requires
        tag is None ==> all_targets_specified(snapshots@),
        (op is Insert || op is Delete) ==> tag is Some,
    ensures
        ({
            let spec = spec_batch(
                op,
                snapshots@,
                base@,
                string_views(langs@),
                pair_views(texts@),
                opt_ref_view(file),
                opt_ref_view(tag),
            );
            match r {
                Ok(ws) => spec == Ok::<_, ErrorView>(write_views(ws@)),
                Err(e) => spec == Err::<Seq<(Seq<char>, Seq<char>)>, _>(error_view(e)),
            }
        }),
{
    let ghost snaps = snapshots@;
    let ghost basev = base@;
    let ghost langsv = string_views(langs@);
    let ghost recs = pair_views(texts@);
    let ghost fv = opt_ref_view(file);
    let ghost tv = opt_ref_view(tag);
    let n = langs.len();

    let mut rs: Vec<FileSearchResult> = Vec::new();
    let mut k: usize = 0;
    proof {
        assert(results_view(rs@) =~= Seq::<MatchView>::empty());
    }
    while k < n
        invariant
            k <= n,
            rs@.len() == k,
            spec_first_resolve(snaps, basev, langsv, fv, tv, k as int) == Ok::<_, ErrorView>(
                results_view(rs@),
            ),
            forall|j: int|
                0 <= j < k && tv is Some ==> (#[trigger] rs@[j]).line is Some && rs@[j].content
                    is Some,
        decreases n - k,
    {
        let lang = &langs[k];
        match locate_lang(snapshots, lang, tag) {
            Some(m) => {
                proof {
                    if tv is Some {
                        lemma_locate_tag(snaps, langsv[k as int], tv);
                    }
                    assert(results_view(rs@.push(m)) =~= results_view(rs@).push(
                        crate::file_handling::result_view(m),
                    ));
                }
                rs.push(m);
            },
            None => {
                let e = tag_search_error(base, lang, file, tag);
                proof {
                    assert(spec_first_resolve(snaps, basev, langsv, fv, tv, k + 1 as int) == Err::<
                        Seq<MatchView>,
                        _,
                    >(error_view(e)));
                    lemma_first_resolve_err(snaps, basev, langsv, fv, tv, k + 1 as int, n as int);
                }
                return Err(e);
            },
        }
        k = k + 1;
    }
    let ghost ms = results_view(rs@);

    let mut ws: Vec<FileWrite> = Vec::new();
    let mut k: usize = 0;
    proof {
        assert(write_views(ws@) =~= Seq::<(Seq<char>, Seq<char>)>::empty());
    }
    while k < n
        invariant
            k <= n,
            ws@.len() == k,
            rs@.len() == n,
            ms == results_view(rs@),
            spec_plan(op, langsv, ms, recs, k as int) == Ok::<_, ErrorView>(write_views(ws@)),
            forall|j: int|
                0 <= j < n && tv is Some ==> (#[trigger] rs@[j]).line is Some && rs@[j].content
                    is Some,
        decreases n - k,
    {
        let m = &rs[k];
        let is_delete = match op {
            EditOp::Delete => true,
            _ => false,
        };
        let snippet: String = if is_delete {
            String::new()
        } else {
            proof {
                lemma_lookup_views(texts@, langsv[k as int]);
            }
            match find_match(langs[k].as_str(), texts) {
                Some(s) => s.clone(),
                None => {
                    proof {
                        assert(spec_plan(op, langsv, ms, recs, k + 1 as int) == Err::<
                            Seq<(Seq<char>, Seq<char>)>,
                            _,
                        >(ErrorView::LangNoFound));
                        lemma_plan_err(op, langsv, ms, recs, k + 1 as int, n as int);
                    }
                    return Err(Error::LangNoFound);
                },
            }
        };
        proof {
            if !(op is Delete) {
                lemma_lookup_views(texts@, langsv[k as int]);
            }
        }
        let cur: Option<String> = match last_write_of(&ws, &m.file) {
            Some(c) => Some(c),
            None => match &m.content {
                Some(c) => Some(c.clone()),
                None => None,
            },
        };
        let cur: String = match cur {
            Some(c) => c,
            None => {
                let e = Error::Io { path: m.file.clone() };
                proof {
                    assert(spec_plan(op, langsv, ms, recs, k + 1 as int) == Err::<
                        Seq<(Seq<char>, Seq<char>)>,
                        _,
                    >(error_view(e)));
                    lemma_plan_err(op, langsv, ms, recs, k + 1 as int, n as int);
                }
                return Err(e);
            },
        };
        let new_content: String = match op {
            EditOp::Append => crate::text::append_to_text(cur.as_str(), snippet.as_str()),
            EditOp::Insert => {
                let line = match m.line {
                    Some(i) => i,
                    None => vstd::pervasive::unreached(),
                };
                crate::text::insert_text_at_line(cur.as_str(), snippet.as_str(), line)
            },
            EditOp::Delete => {
                let line = match m.line {
                    Some(i) => i,
                    None => vstd::pervasive::unreached(),
                };
                crate::text::delete_line_from_text(cur.as_str(), line)
            },
        };
        let ghost old_ws = ws@;
        ws.push(FileWrite { path: m.file.clone(), content: new_content });
        proof {
            assert(write_views(ws@) =~= write_views(old_ws).push((m.file@, new_content@)));
        }
        k = k + 1;
    }
    proof {
        assert(spec_first_resolve(snaps, basev, langsv, fv, tv, langsv.len() as int) == Ok::<
            _,
            ErrorView,
        >(ms));
    }
    Ok(ws)
}

/// What one batch edit is: append a snippet to an explicitly named file,
/// insert a snippet the line before an anchor, or delete the anchor's line.
#[derive(Debug)]
pub enum Action {
    Append(String),
    PrependFile(FindSpecified),
    Delete(FindSpecified),
}

/// The combined entry point's configuration: a base directory, the raw
/// record text (or the file the caller reads it from), the tag to render
/// snippets under, and the edit to perform.
#[derive(Debug)]
pub struct Config {
    pub verbose: bool,
    pub base_path: String,
    pub text: Option<String>,
    pub input_file: Option<String>,
    pub action: Action,
    pub new_var: String,
}

/// Configuration of a remove batch: the anchor to delete at, and an
/// explicit comma-separated language list in place of parsed records.
#[derive(Debug)]
pub struct RemoveConfig {
    pub verbose: bool,
    pub base_path: String,
    pub dst_tag: FindSpecified,
    pub languages: String,
    pub yes: bool,
}

/// Configuration of an append batch: the file, relative to each language's
/// directory, to append each language's snippet to.
#[derive(Debug)]
pub struct AppendConfig {
    pub verbose: bool,
    pub base_path: String,
    pub file: String,
    pub input: Input,
    pub src_tag: String,
}

/// Configuration of an insert batch: each language's snippet goes the line
/// before the anchor, optionally confined to an explicit file.
#[derive(Debug)]
pub struct InsertConfig {
    pub verbose: bool,
    pub base_path: String,
    pub input: Input,
    pub src_tag: String,
    pub dst_tag: FindSpecified,
}

/// Parses the records, then runs the batch over the parsed languages.
pub open spec fn spec_parse_then(
    op: EditOp,
    snaps: Seq<(String, LangRoot)>,
    base: Seq<char>,
    var_name: Seq<char>,
    text: Seq<char>,
    file: Option<Seq<char>>,
    tag: Option<Seq<char>>,
) -> Result<Seq<(Seq<char>, Seq<char>)>, ErrorView> {
    let ls = lines_of(text);
    if !all_records_ok(ls) {
        Err(ErrorView::NoSeparator)
    } else {
        let recs = spec_records(ls, var_name);
        spec_batch(op, snaps, base, langs_of(recs), recs, file, tag)
    }
}

/// What an append batch computes; meaningful when the input is literal
/// text, which the caller establishes by resolving an input file first.
pub open spec fn spec_append_batch(config: AppendConfig, snaps: Seq<(String, LangRoot)>) -> Result<
    Seq<(Seq<char>, Seq<char>)>,
    ErrorView,
> {
    spec_parse_then(
        EditOp::Append,
        snaps,
        config.base_path@,
        config.src_tag@,
        config.input->Text_0@,
        Some(config.file@),
        None,
    )
}

/// What an insert batch computes.
pub open spec fn spec_insert_batch(config: InsertConfig, snaps: Seq<(String, LangRoot)>) -> Result<
    Seq<(Seq<char>, Seq<char>)>,
    ErrorView,
> {
    spec_parse_then(
        EditOp::Insert,
        snaps,
        config.base_path@,
        config.src_tag@,
        config.input->Text_0@,
        opt_string_view(config.dst_tag.file),
        Some(config.dst_tag.needle@),
    )
}

/// What a remove batch computes: its languages come from the explicit
/// comma-separated list, and no snippets are involved.
pub open spec fn spec_remove_batch(config: RemoveConfig, snaps: Seq<(String, LangRoot)>) -> Result<
    Seq<(Seq<char>, Seq<char>)>,
    ErrorView,
> {
    spec_batch(
        EditOp::Delete,
        snaps,
        config.base_path@,
        crate::text::raw_split(config.languages@, ','),
        Seq::<(Seq<char>, Seq<char>)>::empty(),
        opt_string_view(config.dst_tag.file),
        Some(config.dst_tag.needle@),
    )
}

/// What the combined entry point computes; meaningful when the text is
/// present, which the caller establishes by resolving an input file first.
pub open spec fn spec_run(config: Config, snaps: Seq<(String, LangRoot)>) -> Result<
    Seq<(Seq<char>, Seq<char>)>,
    ErrorView,
> {
    let text = config.text->Some_0@;
    match config.action {
        Action::Append(file) => spec_parse_then(
            EditOp::Append,
            snaps,
            config.base_path@,
            config.new_var@,
            text,
            Some(file@),
            None,
        ),
        Action::PrependFile(fs) => spec_parse_then(
            EditOp::Insert,
            snaps,
            config.base_path@,
            config.new_var@,
            text,
            opt_string_view(fs.file),
            Some(fs.needle@),
        ),
        Action::Delete(fs) => spec_parse_then(
            EditOp::Delete,
            snaps,
            config.base_path@,
            config.new_var@,
            text,
            opt_string_view(fs.file),
            Some(fs.needle@),
        ),
    }
}

/// The terse message the combined entry point reports for each failure.
pub open spec fn run_message(e: ErrorView) -> Seq<char> {
    match e {
        ErrorView::NoSeparator => "lol"@,
        ErrorView::TagSearchFailed { .. } => "path not found for lang: l"@,
        ErrorView::LangNoFound => "no match in language texts..."@,
        ErrorView::Io { .. } => "failed to append to file"@,
    }
}

/// The language of each record, in order.
pub fn langs_of_texts(texts: &Vec<(String, String)>) -> (r: Vec<String>)
    ensures
        string_views(r@) == langs_of(pair_views(texts@)),
{
    let mut langs: Vec<String> = Vec::new();
    let mut k: usize = 0;
    while k < texts.len()
        invariant
            k <= texts@.len(),
            langs@.len() == k,
            forall|j: int| 0 <= j < k ==> (#[trigger] langs@[j])@ == texts@[j].0@,
        decreases texts@.len() - k,
    {
        langs.push(texts[k].0.clone());
        k = k + 1;
    }
    proof {
        assert(string_views(langs@) =~= langs_of(pair_views(texts@)));
    }
    langs
}

/// Computes an append batch: each language's snippet is appended to the
/// language's copy of the configured file. The caller resolves the input to
/// literal text beforehand, supplies per-language snapshots whose target
/// each names the configured file — resolved to its canonical path, or
/// marked unresolved, in which case that language fails with the structured
/// error — and applies the returned writes in order.
pub fn append(config: AppendConfig, snapshots: &Vec<(String, LangRoot)>) -> (r: Result<
    Vec<FileWrite>,
    Error,
>)
    requires
        config.input is Text,
        all_targets_specified(snapshots@),
    ensures
        match r {
            Ok(ws) => spec_append_batch(config, snapshots@) == Ok::<_, ErrorView>(
                write_views(ws@),
            ),
            Err(e) => spec_append_batch(config, snapshots@) == Err::<
                Seq<(Seq<char>, Seq<char>)>,
                _,
            >(error_view(e)),
        },
{
    let text = match &config.input {
        Input::Text(t) => t,
        Input::File(_) => vstd::pervasive::unreached(),
    };
    let texts = match gen_language_text(text.as_str(), config.src_tag.as_str()) {
        Ok(v) => v,
        Err(e) => {
            return Err(e);
        },
    };
    let langs = langs_of_texts(&texts);
    run_batch(
        EditOp::Append,
        &config.base_path,
        Some(&config.file),
        None,
        &langs,
        &texts,
        snapshots,
    )
}

/// Computes an insert batch: each language's snippet goes in the line
/// before the language's anchor line. The caller resolves the input to
/// literal text beforehand and applies the returned writes in order.
pub fn insert(config: InsertConfig, snapshots: &Vec<(String, LangRoot)>) -> (r: Result<
    Vec<FileWrite>,
    Error,
>)
    requires
        config.input is Text,
    ensures
        match r {
            Ok(ws) => spec_insert_batch(config, snapshots@) == Ok::<_, ErrorView>(
                write_views(ws@),
            ),
            Err(e) => spec_insert_batch(config, snapshots@) == Err::<
                Seq<(Seq<char>, Seq<char>)>,
                _,
            >(error_view(e)),
        },
{
    let text = match &config.input {
        Input::Text(t) => t,
        Input::File(_) => vstd::pervasive::unreached(),
    };
    let texts = match gen_language_text(text.as_str(), config.src_tag.as_str()) {
        Ok(v) => v,
        Err(e) => {
            return Err(e);
        },
    };
    let langs = langs_of_texts(&texts);
    run_batch(
        EditOp::Insert,
        &config.base_path,
        config.dst_tag.file.as_ref(),
        Some(&config.dst_tag.needle),
        &langs,
        &texts,
        snapshots,
    )
}

/// The explicit language list, split at every comma: an empty list names
/// one language with the empty name, as splitting always yields one more
/// piece than there are commas.
pub fn split_languages(languages: &str) -> (r: Vec<String>)
    ensures
        string_views(r@) == crate::text::raw_split(languages@, ','),
{
    let chars = to_chars(languages);
    let pieces = crate::text::split_chars(&chars, ',');
    let mut langs: Vec<String> = Vec::new();
    let mut k: usize = 0;
    while k < pieces.len()
        invariant
            k <= pieces@.len(),
            langs@.len() == k,
            forall|j: int| 0 <= j < k ==> (#[trigger] langs@[j])@ == views_of(pieces@)[j],
        decreases pieces@.len() - k,
    {
        langs.push(chars_to_string(&pieces[k]));
        k = k + 1;
    }
    proof {
        assert(string_views(langs@) =~= crate::text::raw_split(languages@, ','));
    }
    langs
}

/// Computes a remove batch: for each language of the explicit list, the
/// first line starting with the anchor is deleted from the file it stands
/// in. The caller applies the returned writes in order.
pub fn remove(config: RemoveConfig, snapshots: &Vec<(String, LangRoot)>) -> (r: Result<
    Vec<FileWrite>,
    Error,
>)
    ensures
        match r {
            Ok(ws) => spec_remove_batch(config, snapshots@) == Ok::<_, ErrorView>(
                write_views(ws@),
            ),
            Err(e) => spec_remove_batch(config, snapshots@) == Err::<
                Seq<(Seq<char>, Seq<char>)>,
                _,
            >(error_view(e)),
        },
{
    let langs = split_languages(config.languages.as_str());
    let texts: Vec<(String, String)> = Vec::new();
    proof {
        assert(pair_views(texts@) =~= Seq::<(Seq<char>, Seq<char>)>::empty());
    }
    run_batch(
        EditOp::Delete,
        &config.base_path,
        config.dst_tag.file.as_ref(),
        Some(&config.dst_tag.needle),
        &langs,
        &texts,
        snapshots,
    )
}

/// The message the combined entry point reports for a failure.
fn error_message(e: &Error) -> (s: &'static str)
    ensures
        s@ == run_message(error_view(*e)),
{
    match e {
        Error::NoSeparator => "lol",
        Error::TagSearchFailed { .. } => "path not found for lang: l",
        Error::LangNoFound => "no match in language texts...",
        Error::Io { .. } => "failed to append to file",
    }
}

/// The combined entry point: parses the records, then performs the
/// configured edit over the parsed languages, reporting failures as terse
/// messages. The caller resolves an input file to text beforehand; for an
/// append every snapshot's target must name the configured file, resolved
/// or marked unresolved.
pub fn run(config: Config, snapshots: &Vec<(String, LangRoot)>) -> (r: Result<
    Vec<FileWrite>,
    &'static str,
>)
    requires
        config.text is Some,
        config.action is Append ==> all_targets_specified(snapshots@),
    ensures
        match r {
            Ok(ws) => spec_run(config, snapshots@) == Ok::<_, ErrorView>(write_views(ws@)),
            Err(s) => spec_run(config, snapshots@) is Err && s@ == run_message(
                spec_run(config, snapshots@)->Err_0,
            ),
        },
{
    let text = match &config.text {
        Some(t) => t,
        None => vstd::pervasive::unreached(),
    };
    let texts = match gen_language_text(text.as_str(), config.new_var.as_str()) {
        Ok(v) => v,
        Err(_) => {
            return Err("lol");
        },
    };
    let langs = langs_of_texts(&texts);
    let res = match &config.action {
        Action::Append(file) => run_batch(
            EditOp::Append,
            &config.base_path,
            Some(file),
            None,
            &langs,
            &texts,
            snapshots,
        ),
        Action::PrependFile(fs) => run_batch(
            EditOp::Insert,
            &config.base_path,
            fs.file.as_ref(),
            Some(&fs.needle),
            &langs,
            &texts,
            snapshots,
        ),
        Action::Delete(fs) => run_batch(
            EditOp::Delete,
            &config.base_path,
            fs.file.as_ref(),
            Some(&fs.needle),
            &langs,
            &texts,
            snapshots,
        ),
    };
    match res {
        Ok(ws) => Ok(ws),
        Err(e) => Err(error_message(&e)),
    }
}

/// The zero-based index of the first line of `text` that starts with
/// `variable`, literally and case-sensitively.
pub fn find_line_occurance(text: &str, variable: &str) -> (r: Option<usize>)
    ensures
        match r {
            Some(i) => first_line_matching(lines_of(text@), variable@) == Some(i as int),
            None => first_line_matching(lines_of(text@), variable@) is None,
        },
{
    let chars = to_chars(text);
    let ls = split_lines(&chars);
    let needle = to_chars(variable);
    find_matching_line(&ls, &needle)
}

} // verus!

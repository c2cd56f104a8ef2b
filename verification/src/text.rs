//! The line-level text model: splitting text into lines, joining lines back,
//! scanning for an anchor line, and the three line mutators (append,
//! insert-before-index, delete-index).
//!
//! Lines are separated by a single `'\n'` character; no other byte sequence
//! is treated as a line break, and `'\r'` is ordinary content. As in
//! [`str::lines`], a trailing `'\n'` does not open a final empty line.
//! The mutators that work line by line rejoin the surviving lines with a
//! single `'\n'`, so a file's trailing-newline convention is not preserved
//! by them; `append_to_text` keeps the text's own ending.
use vstd::prelude::*;

verus! {

/// Splits `s` at every occurrence of `sep`: the result always has one more
/// element than `s` has separators, so splitting the empty sequence gives
/// one empty piece.
pub open spec fn raw_split(s: Seq<char>, sep: char) -> Seq<Seq<char>>
    decreases s.len(),
{
    if s.len() == 0 {
        seq![Seq::<char>::empty()]
    } else if s[0] == sep {
        seq![Seq::<char>::empty()] + raw_split(s.drop_first(), sep)
    } else {
        let r = raw_split(s.drop_first(), sep);
        seq![seq![s[0]] + r[0]] + r.drop_first()
    }
}

/// The lines of `s`, as [`str::lines`] reports them: separated by `'\n'`,
/// with a trailing `'\n'` closing the last line rather than opening an
/// empty one.
pub open spec fn lines_of(s: Seq<char>) -> Seq<Seq<char>> {
    if s.len() == 0 {
        Seq::<Seq<char>>::empty()
    } else if s.last() == '\n' {
        raw_split(s.drop_last(), '\n')
    } else {
        raw_split(s, '\n')
    }
}

/// Joins the pieces with a single `sep` between neighbours.
pub open spec fn join_with(ls: Seq<Seq<char>>, sep: char) -> Seq<char>
    decreases ls.len(),
{
    if ls.len() == 0 {
        Seq::<char>::empty()
    } else if ls.len() == 1 {
        ls[0]
    } else {
        ls[0] + seq![sep] + join_with(ls.drop_first(), sep)
    }
}

pub proof fn lemma_raw_split_len(s: Seq<char>, sep: char)
    ensures
        raw_split(s, sep).len() >= 1,
    decreases s.len(),
{
    if s.len() != 0 {
        lemma_raw_split_len(s.drop_first(), sep);
    }
}

/// Splitting a sequence that holds no separator gives that sequence back as
/// the single piece.
pub proof fn lemma_raw_split_whole(a: Seq<char>, sep: char)
    requires
        !a.contains(sep),
    ensures
        raw_split(a, sep) =~~= seq![a],
    decreases a.len(),
{
    if a.len() != 0 {
        assert(a[0] != sep);
        assert(!a.drop_first().contains(sep)) by {
            assert forall|j: int| 0 <= j < a.drop_first().len() implies a.drop_first()[j]
                != sep by {
                assert(a.drop_first()[j] == a[j + 1]);
            }
        }
        lemma_raw_split_whole(a.drop_first(), sep);
        assert(seq![a[0]] + a.drop_first() =~= a);
    }
}

/// Splitting `a + sep + b`, where `a` holds no separator, yields `a`
/// followed by the pieces of `b`.
pub proof fn lemma_raw_split_step(a: Seq<char>, b: Seq<char>, sep: char)
    requires
        !a.contains(sep),
    ensures
        raw_split(a + seq![sep] + b, sep) =~~= seq![a] + raw_split(b, sep),
    decreases a.len(),
{
    let s = a + seq![sep] + b;
    if a.len() == 0 {
        assert(s =~= seq![sep] + b);
        assert(s[0] == sep);
        assert(s.drop_first() =~= b);
    } else {
        assert(s[0] == a[0]);
        assert(a[0] != sep);
        assert(!a.drop_first().contains(sep)) by {
            assert forall|j: int| 0 <= j < a.drop_first().len() implies a.drop_first()[j]
                != sep by {
                assert(a.drop_first()[j] == a[j + 1]);
            }
        }
        lemma_raw_split_step(a.drop_first(), b, sep);
        lemma_raw_split_len(b, sep);
        assert(s.drop_first() =~= a.drop_first() + seq![sep] + b);
        let r = raw_split(s.drop_first(), sep);
        assert(r =~~= seq![a.drop_first()] + raw_split(b, sep));
        assert(seq![s[0]] + r[0] =~= a);
        assert(r.drop_first() =~~= raw_split(b, sep));
    }
}

/// The views of a sequence of character vectors.
pub open spec fn views_of(ls: Seq<Vec<char>>) -> Seq<Seq<char>> {
    Seq::new(ls.len(), |i: int| ls[i]@)
}

/// Does `l` start with `p`, character for character?
pub open spec fn starts_with(l: Seq<char>, p: Seq<char>) -> bool {
    p.len() <= l.len() && l.take(p.len() as int) == p
}

/// The index of the first piece that starts with `needle`, if any.
pub open spec fn first_line_matching(ls: Seq<Seq<char>>, needle: Seq<char>) -> Option<int>
    decreases ls.len(),
{
    if ls.len() == 0 {
        None
    } else if starts_with(ls[0], needle) {
        Some(0int)
    } else {
        match first_line_matching(ls.drop_first(), needle) {
            Some(i) => Some(i + 1),
            None => None,
        }
    }
}

pub proof fn lemma_first_line_matching_some(ls: Seq<Seq<char>>, needle: Seq<char>, i: int)
    requires
        0 <= i < ls.len(),
        starts_with(ls[i], needle),
        forall|j: int| 0 <= j < i ==> !starts_with(#[trigger] ls[j], needle),
    ensures
        first_line_matching(ls, needle) == Some(i),
    decreases i,
{
    if i > 0 {
        lemma_first_line_matching_some(ls.drop_first(), needle, i - 1);
    }
}

pub proof fn lemma_first_line_matching_none(ls: Seq<Seq<char>>, needle: Seq<char>)
    requires
        forall|j: int| 0 <= j < ls.len() ==> !starts_with(#[trigger] ls[j], needle),
    ensures
        first_line_matching(ls, needle) is None,
    decreases ls.len(),
{
    if ls.len() > 0 {
        lemma_first_line_matching_none(ls.drop_first(), needle);
    }
}

/// Joining distributes over pushing one more piece on the right.
pub proof fn lemma_join_push(ls: Seq<Seq<char>>, l: Seq<char>, sep: char)
    requires
        ls.len() >= 1,
    ensures
        join_with(ls.push(l), sep) =~= join_with(ls, sep) + seq![sep] + l,
    decreases ls.len(),
{
    if ls.len() == 1 {
        assert(ls.push(l).drop_first() =~= seq![l]);
        assert(ls.push(l)[0] == ls[0]);
        assert(join_with(seq![l], sep) == l);
        assert(join_with(ls.push(l), sep) =~= ls[0] + seq![sep] + l);
    } else {
        assert(ls.push(l).drop_first() =~= ls.drop_first().push(l));
        lemma_join_push(ls.drop_first(), l, sep);
    }
}

/// The characters of `s`, one by one.
pub fn to_chars(s: &str) -> (r: Vec<char>)
    ensures
        r@ == s@,
{
    let len = s.unicode_len();
    let mut r: Vec<char> = Vec::new();
    let mut i: usize = 0;
    while i < len
        invariant
            len == s@.len(),
            i <= len,
            r@ == s@.take(i as int),
        decreases len - i,
    {
        r.push(s.get_char(i));
        assert(r@ =~= s@.take(i + 1 as int));
        i = i + 1;
    }
    assert(r@ =~= s@);
    r
}

/// Relies on `String`'s `FromIterator<char>`: the collected string holds
/// exactly the given characters in order.
#[verifier::external_body]
pub fn chars_to_string(v: &Vec<char>) -> (r: String)
    ensures
        r@ == v@,
{
    v.iter().collect()
}

/// The first `n` characters of `v`.
pub fn copy_prefix(v: &Vec<char>, n: usize) -> (r: Vec<char>)
    requires
        n <= v@.len(),
    ensures
        r@ == v@.take(n as int),
{
    let mut r: Vec<char> = Vec::new();
    let mut i: usize = 0;
    while i < n
        invariant
            n <= v@.len(),
            i <= n,
            r@ == v@.take(i as int),
        decreases n - i,
    {
        r.push(v[i]);
        assert(r@ =~= v@.take(i + 1 as int));
        i = i + 1;
    }
    r
}

/// The characters of `v` from position `n` on.
pub fn copy_suffix(v: &Vec<char>, n: usize) -> (r: Vec<char>)
    requires
        n <= v@.len(),
    ensures
        r@ == v@.skip(n as int),
{
    let mut r: Vec<char> = Vec::new();
    let mut i: usize = n;
    while i < v.len()
        invariant
            n <= i <= v@.len(),
            r@ == v@.subrange(n as int, i as int),
        decreases v@.len() - i,
    {
        r.push(v[i]);
        assert(r@ =~= v@.subrange(n as int, i + 1 as int));
        i = i + 1;
    }
    assert(r@ =~= v@.skip(n as int));
    r
}

/// Splits `v` at every occurrence of `sep`.
pub fn split_chars(v: &Vec<char>, sep: char) -> (r: Vec<Vec<char>>)
    ensures
        views_of(r@) =~~= raw_split(v@, sep),
{
    let ghost w = v@;
    let mut r: Vec<Vec<char>> = Vec::new();
    let mut cur: Vec<char> = Vec::new();
    let mut i: usize = 0;
    proof {
        assert(cur@ + w.skip(0) =~= w);
        assert(views_of(r@) =~~= Seq::<Seq<char>>::empty());
        assert(views_of(r@) + raw_split(w, sep) =~~= raw_split(w, sep));
    }
    while i < v.len()
        invariant
            i <= v@.len(),
            w == v@,
            !cur@.contains(sep),
            raw_split(w, sep) =~~= views_of(r@) + raw_split(cur@ + w.skip(i as int), sep),
        decreases v@.len() - i,
    {
        let c = v[i];
        if c == sep {
            proof {
                assert(cur@ + w.skip(i as int) =~= cur@ + seq![sep] + w.skip(i + 1 as int));
                lemma_raw_split_step(cur@, w.skip(i + 1 as int), sep);
            }
            let ghost old_r = r@;
            let ghost old_cur = cur@;
            r.push(cur);
            cur = Vec::new();
            proof {
                assert(views_of(r@) =~~= views_of(old_r) + seq![old_cur]);
                assert(cur@ + w.skip(i + 1 as int) =~= w.skip(i + 1 as int));
            }
        } else {
            let ghost old_cur = cur@;
            cur.push(c);
            proof {
                assert(cur@ + w.skip(i + 1 as int) =~= old_cur + w.skip(i as int));
                assert forall|j: int| 0 <= j < cur@.len() implies cur@[j] != sep by {
                    if j < old_cur.len() {
                        assert(cur@[j] == old_cur[j]);
                    }
                }
            }
        }
        i = i + 1;
    }
    proof {
        assert(cur@ + w.skip(i as int) =~= cur@);
        lemma_raw_split_whole(cur@, sep);
    }
    let ghost old_r = r@;
    let ghost old_cur = cur@;
    r.push(cur);
    proof {
        assert(views_of(r@) =~~= views_of(old_r) + seq![old_cur]);
    }
    r
}

/// The lines of `v`, as `lines_of` defines them.
pub fn split_lines(v: &Vec<char>) -> (r: Vec<Vec<char>>)
    ensures
        views_of(r@) =~~= lines_of(v@),
{
    if v.len() == 0 {
        let r: Vec<Vec<char>> = Vec::new();
        return r;
    }
    if v[v.len() - 1] == '\n' {
        let w = copy_prefix(v, v.len() - 1);
        proof {
            assert(w@ =~= v@.drop_last());
        }
        split_chars(&w, '\n')
    } else {
        split_chars(v, '\n')
    }
}

/// Appends the characters of `src` to `dst`.
pub fn push_chars(dst: &mut Vec<char>, src: &Vec<char>)
    ensures
        final(dst)@ == old(dst)@ + src@,
{
    let mut i: usize = 0;
    while i < src.len()
        invariant
            i <= src@.len(),
            dst@ == old(dst)@ + src@.take(i as int),
        decreases src@.len() - i,
    {
        dst.push(src[i]);
        assert(dst@ =~= old(dst)@ + src@.take(i + 1 as int));
        i = i + 1;
    }
    assert(dst@ =~= old(dst)@ + src@);
}

/// Joins the pieces with a single `sep` between neighbours.
pub fn join_chars(ls: &Vec<Vec<char>>, sep: char) -> (r: Vec<char>)
    ensures
        r@ =~= join_with(views_of(ls@), sep),
{
    let ghost dv = views_of(ls@);
    if ls.len() == 0 {
        let r: Vec<char> = Vec::new();
        return r;
    }
    let mut r: Vec<char> = Vec::new();
    push_chars(&mut r, &ls[0]);
    assert(r@ =~= join_with(dv.take(1), sep));
    let mut i: usize = 1;
    while i < ls.len()
        invariant
            1 <= i <= ls@.len(),
            dv == views_of(ls@),
            r@ == join_with(dv.take(i as int), sep),
        decreases ls@.len() - i,
    {
        r.push(sep);
        push_chars(&mut r, &ls[i]);
        proof {
            assert(dv.take(i as int).len() >= 1);
            lemma_join_push(dv.take(i as int), dv[i as int], sep);
            assert(dv.take(i + 1 as int) =~= dv.take(i as int).push(dv[i as int]));
        }
        i = i + 1;
    }
    assert(dv.take(i as int) =~= dv);
    r
}

/// The index of the first occurrence of `c` in `s`, if any.
pub open spec fn first_index_of(s: Seq<char>, c: char) -> Option<int>
    decreases s.len(),
{
    if s.len() == 0 {
        None
    } else if s[0] == c {
        Some(0int)
    } else {
        match first_index_of(s.drop_first(), c) {
            Some(i) => Some(i + 1),
            None => None,
        }
    }
}

pub proof fn lemma_first_index_of_some(s: Seq<char>, c: char, i: int)
    requires
        0 <= i < s.len(),
        s[i] == c,
        forall|j: int| 0 <= j < i ==> s[j] != c,
    ensures
        first_index_of(s, c) == Some(i),
    decreases i,
{
    if i > 0 {
        lemma_first_index_of_some(s.drop_first(), c, i - 1);
    }
}

pub proof fn lemma_first_index_of_none(s: Seq<char>, c: char)
    requires
        forall|j: int| 0 <= j < s.len() ==> s[j] != c,
    ensures
        first_index_of(s, c) is None,
    decreases s.len(),
{
    if s.len() > 0 {
        lemma_first_index_of_none(s.drop_first(), c);
    }
}

/// How one character is written inside a quoted snippet: a backslash or a
/// double quote gets a backslash in front, anything else stands as itself.
pub open spec fn escape_char(c: char) -> Seq<char> {
    if c == '\\' || c == '"' {
        seq!['\\', c]
    } else {
        seq![c]
    }
}

/// The body of a quoted snippet: every character escaped.
pub open spec fn escaped_chars(s: Seq<char>) -> Seq<char>
    decreases s.len(),
{
    if s.len() == 0 {
        Seq::<char>::empty()
    } else {
        escape_char(s[0]) + escaped_chars(s.drop_first())
    }
}

/// The quoted form of a payload: the escaped body between double quotes.
pub open spec fn spec_quote(s: Seq<char>) -> Seq<char> {
    seq!['"'] + escaped_chars(s) + seq!['"']
}

/// Reads an escaped body back: a backslash takes the next character
/// verbatim, a bare double quote or a trailing lone backslash is malformed.
pub open spec fn spec_unescape(s: Seq<char>) -> Option<Seq<char>>
    decreases s.len(),
{
    if s.len() == 0 {
        Some(Seq::<char>::empty())
    } else if s[0] == '\\' {
        if s.len() >= 2 {
            match spec_unescape(s.skip(2)) {
                Some(r) => Some(seq![s[1]] + r),
                None => None,
            }
        } else {
            None
        }
    } else if s[0] == '"' {
        None
    } else {
        match spec_unescape(s.drop_first()) {
            Some(r) => Some(seq![s[0]] + r),
            None => None,
        }
    }
}

/// Reads a quoted snippet back to its payload, if it is well formed.
pub open spec fn spec_unquote(s: Seq<char>) -> Option<Seq<char>> {
    if s.len() >= 2 && s[0] == '"' && s.last() == '"' {
        spec_unescape(s.subrange(1, s.len() - 1))
    } else {
        None
    }
}

proof fn lemma_unescape_escaped(p: Seq<char>)
    ensures
        spec_unescape(escaped_chars(p)) == Some(p),
    decreases p.len(),
{
    if p.len() > 0 {
        lemma_unescape_escaped(p.drop_first());
        let e = escaped_chars(p);
        let rest = escaped_chars(p.drop_first());
        if p[0] == '\\' || p[0] == '"' {
            assert(e =~= seq!['\\', p[0]] + rest);
            assert(e.skip(2) =~= rest);
            assert(seq![p[0]] + p.drop_first() =~= p);
        } else {
            assert(e =~= seq![p[0]] + rest);
            assert(e.drop_first() =~= rest);
            assert(seq![p[0]] + p.drop_first() =~= p);
        }
    }
}

/// Quoting round-trips: reading the quoted form of any payload gives the
/// payload back exactly.
pub proof fn lemma_quote_round_trip(p: Seq<char>)
    ensures
        spec_unquote(spec_quote(p)) == Some(p),
{
    let q = spec_quote(p);
    assert(q[0] == '"');
    assert(q.last() == '"');
    assert(q.subrange(1, q.len() - 1) =~= escaped_chars(p));
    lemma_unescape_escaped(p);
}

proof fn lemma_escaped_push(s: Seq<char>, c: char)
    ensures
        escaped_chars(s.push(c)) =~= escaped_chars(s) + escape_char(c),
    decreases s.len(),
{
    if s.len() == 0 {
        assert(s.push(c)[0] == c);
        assert(s.push(c).drop_first() =~= Seq::<char>::empty());
        assert(escaped_chars(s.push(c)) == escape_char(c) + escaped_chars(Seq::<char>::empty()));
        assert(escaped_chars(s.push(c)) =~= escaped_chars(s) + escape_char(c));
    } else {
        assert(s.push(c)[0] == s[0]);
        assert(s.push(c).drop_first() =~= s.drop_first().push(c));
        lemma_escaped_push(s.drop_first(), c);
        assert(escaped_chars(s.push(c)) == escape_char(s[0]) + escaped_chars(
            s.drop_first().push(c),
        ));
        assert(escaped_chars(s.push(c)) =~= escaped_chars(s) + escape_char(c));
    }
}

/// The quoted form of `payload`; see `spec_quote`.
pub fn quote_chars(payload: &Vec<char>) -> (r: Vec<char>)
    ensures
        r@ == spec_quote(payload@),
{
    let mut r: Vec<char> = Vec::new();
    r.push('"');
    let mut i: usize = 0;
    while i < payload.len()
        invariant
            i <= payload@.len(),
            r@ == seq!['"'] + escaped_chars(payload@.take(i as int)),
        decreases payload@.len() - i,
    {
        let c = payload[i];
        if c == '\\' || c == '"' {
            r.push('\\');
        }
        r.push(c);
        proof {
            lemma_escaped_push(payload@.take(i as int), c);
            assert(payload@.take(i + 1 as int) =~= payload@.take(i as int).push(c));
        }
        i = i + 1;
    }
    assert(payload@.take(i as int) =~= payload@);
    r.push('"');
    assert(r@ =~= spec_quote(payload@));
    r
}

/// Reads a quoted snippet back to its payload; see `spec_unquote`.
pub fn unquote_text(s: &str) -> (r: Option<String>)
    ensures
        match r {
            Some(p) => spec_unquote(s@) == Some(p@),
            None => spec_unquote(s@) is None,
        },
{
    let v = to_chars(s);
    if v.len() < 2 {
        return None;
    }
    if v[0] != '"' || v[v.len() - 1] != '"' {
        return None;
    }
    let ghost inner = v@.subrange(1, v@.len() - 1);
    let n = v.len() - 1;
    let mut acc: Vec<char> = Vec::new();
    let mut i: usize = 1;
    proof {
        assert(inner.skip(i - 1 as int) =~= inner);
    }
    while i < n
        invariant
            1 <= i <= n,
            n == v@.len() - 1,
            v@.len() >= 2,
            v@ == s@,
            inner == v@.subrange(1, v@.len() - 1),
            spec_unquote(v@) == spec_unescape(inner),
            match spec_unescape(inner.skip(i - 1 as int)) {
                Some(rest) => spec_unescape(inner) == Some(acc@ + rest),
                None => spec_unescape(inner) is None,
            },
        decreases n - i,
    {
        let ghost tail = inner.skip(i - 1 as int);
        let c = v[i];
        proof {
            assert(tail[0] == inner[i - 1 as int]);
            assert(tail[0] == v@[i as int]);
        }
        if c == '\\' {
            if i + 1 >= n {
                proof {
                    assert(tail.len() == 1);
                    assert(spec_unescape(tail) is None);
                }
                return None;
            }
            let c2 = v[i + 1];
            proof {
                assert(tail.len() >= 2);
                assert(tail[1] == v@[i + 1 as int]);
                assert(tail.skip(2) =~= inner.skip(i + 1 as int));
            }
            acc.push(c2);
            i = i + 2;
        } else if c == '"' {
            proof {
                assert(spec_unescape(tail) is None);
            }
            return None;
        } else {
            proof {
                assert(tail.drop_first() =~= inner.skip(i as int));
            }
            acc.push(c);
            i = i + 1;
        }
    }
    proof {
        assert(inner.skip(i - 1 as int) =~= Seq::<char>::empty());
        assert(spec_unescape(inner) == Some(acc@));
    }
    Some(chars_to_string(&acc))
}

/// The position of the first `c` in `v`, if any.
pub fn find_char(v: &Vec<char>, c: char) -> (r: Option<usize>)
    ensures
        match r {
            Some(i) => first_index_of(v@, c) == Some(i as int) && i < v@.len(),
            None => first_index_of(v@, c) is None,
        },
{
    let mut i: usize = 0;
    while i < v.len()
        invariant
            i <= v@.len(),
            forall|j: int| 0 <= j < i ==> v@[j] != c,
        decreases v@.len() - i,
    {
        if v[i] == c {
            proof {
                lemma_first_index_of_some(v@, c, i as int);
            }
            return Some(i);
        }
        i = i + 1;
    }
    proof {
        lemma_first_index_of_none(v@, c);
    }
    None
}

/// The index of the first piece of `ls` that starts with `needle`, if any.
pub fn find_matching_line(ls: &Vec<Vec<char>>, needle: &Vec<char>) -> (r: Option<usize>)
    ensures
        match r {
            Some(i) => first_line_matching(views_of(ls@), needle@) == Some(i as int) && i
                < ls@.len(),
            None => first_line_matching(views_of(ls@), needle@) is None,
        },
{
    let mut i: usize = 0;
    while i < ls.len()
        invariant
            i <= ls@.len(),
            forall|j: int| 0 <= j < i ==> !starts_with(#[trigger] views_of(ls@)[j], needle@),
        decreases ls@.len() - i,
    {
        if starts_with_chars(&ls[i], needle) {
            proof {
                lemma_first_line_matching_some(views_of(ls@), needle@, i as int);
            }
            return Some(i);
        }
        i = i + 1;
    }
    proof {
        lemma_first_line_matching_none(views_of(ls@), needle@);
    }
    None
}

/// The text after appending `v`: `v` alone on empty text; on text that ends
/// in a line break, `v` follows it directly; otherwise one line break is put
/// between.
pub open spec fn spec_append_to_text(s: Seq<char>, v: Seq<char>) -> Seq<char> {
    if s.len() == 0 || s.last() == '\n' {
        s + v
    } else {
        s + seq!['\n'] + v
    }
}

/// The text after inserting `v` as a new line immediately before the line
/// that was at `index`. Empty text becomes `v` whatever the index; index 0
/// puts `v` in front of the whole text unchanged; an index past the last
/// line leaves the lines as they are (though they are rejoined).
pub open spec fn spec_insert_text_at_line(s: Seq<char>, v: Seq<char>, index: int) -> Seq<char> {
    if s.len() == 0 {
        v
    } else if index == 0 {
        v + seq!['\n'] + s
    } else {
        let ls = lines_of(s);
        if index <= ls.len() {
            join_with(ls.insert(index, v), '\n')
        } else {
            join_with(ls, '\n')
        }
    }
}

/// The text after removing the line at `index`; an index past the last line
/// removes nothing, but the lines are rejoined all the same.
pub open spec fn spec_delete_line(s: Seq<char>, index: int) -> Seq<char> {
    let ls = lines_of(s);
    if 0 <= index < ls.len() {
        join_with(ls.remove(index), '\n')
    } else {
        join_with(ls, '\n')
    }
}

/// Appends `value` to `content` as its own line; see `spec_append_to_text`.
pub fn append_to_text(content: &str, value: &str) -> (r: String)
    ensures
        r@ == spec_append_to_text(content@, value@),
{
    let mut s = to_chars(content);
    let v = to_chars(value);
    if s.len() > 0 && s[s.len() - 1] != '\n' {
        s.push('\n');
        assert(s@ =~= content@ + seq!['\n']);
    }
    push_chars(&mut s, &v);
    proof {
        if content@.len() == 0 || content@.last() == '\n' {
            assert(s@ =~= content@ + value@);
        } else {
            assert(s@ =~= content@ + seq!['\n'] + value@);
        }
    }
    chars_to_string(&s)
}

/// Inserts `value` as a new line before the line at `index`; see
/// `spec_insert_text_at_line`.
pub fn insert_text_at_line(content: &str, value: &str, index: usize) -> (r: String)
    ensures
        r@ == spec_insert_text_at_line(content@, value@, index as int),
{
    let s = to_chars(content);
    let v = to_chars(value);
    if s.len() == 0 {
        return chars_to_string(&v);
    }
    if index == 0 {
        let mut r = v;
        r.push('\n');
        push_chars(&mut r, &s);
        assert(r@ =~= value@ + seq!['\n'] + content@);
        return chars_to_string(&r);
    }
    let mut ls = split_lines(&s);
    if index <= ls.len() {
        let ghost old_ls = ls@;
        ls.insert(index, v);
        proof {
            assert(views_of(ls@) =~~= views_of(old_ls).insert(index as int, value@));
        }
    }
    let r = join_chars(&ls, '\n');
    chars_to_string(&r)
}

/// Removes the line at `index`; see `spec_delete_line`.
pub fn delete_line_from_text(content: &str, index: usize) -> (r: String)
    ensures
        r@ == spec_delete_line(content@, index as int),
{
    let s = to_chars(content);
    let mut ls = split_lines(&s);
    if index < ls.len() {
        let ghost old_ls = ls@;
        let _removed = ls.remove(index);
        proof {
            assert(views_of(ls@) =~~= views_of(old_ls).remove(index as int));
        }
    }
    let r = join_chars(&ls, '\n');
    chars_to_string(&r)
}

/// Does `l` start with `p`?
pub fn starts_with_chars(l: &Vec<char>, p: &Vec<char>) -> (r: bool)
    ensures
        r == starts_with(l@, p@),
{
    if p.len() > l.len() {
        return false;
    }
    let mut i: usize = 0;
    while i < p.len()
        invariant
            p@.len() <= l@.len(),
            i <= p@.len(),
            forall|j: int| 0 <= j < i ==> l@[j] == p@[j],
        decreases p@.len() - i,
    {
        if l[i] != p[i] {
            assert(l@.take(p@.len() as int)[i as int] != p@[i as int]);
            return false;
        }
        i = i + 1;
    }
    proof {
        assert(l@.take(p@.len() as int) =~= p@);
    }
    true
}

/// Character-for-character string equality.
pub fn str_eq(a: &str, b: &str) -> (r: bool)
    ensures
        r == (a@ == b@),
{
    let alen = a.unicode_len();
    let blen = b.unicode_len();
    if alen != blen {
        assert(a@ != b@);
        return false;
    }
    let mut i: usize = 0;
    while i < alen
        invariant
            alen == a@.len(),
            alen == b@.len(),
            i <= alen,
            forall|j: int| 0 <= j < i ==> a@[j] == b@[j],
        decreases alen - i,
    {
        if a.get_char(i) != b.get_char(i) {
            return false;
        }
        i = i + 1;
    }
    proof {
        assert(a@ =~= b@);
    }
    true
}

} // verus!

//! Positional route matching.
//!
//! A request path is normalised (leading `/` and a `v2/` prefix dropped), cut
//! into columns at every `/`, and compared column by column against a declared
//! pattern of the same length. Positional rather than substring matching: a
//! stream named `traces` only ever lands in a [`Seg::Param`] slot.

use vstd::prelude::*;

verus! {

/// One segment of a declared route pattern.
#[derive(Debug, Clone, Copy, PartialEq, Eq)]
pub enum Seg {
    /// A fixed path segment that must match exactly (e.g. `_bulk`, `traces`).
    Lit(&'static str),
    /// Any one non-empty segment (`{org_id}`, `{stream_name}`, ...).
    Param,
    /// A segment constrained to the caller-supplied subject; fails closed
    /// without one.
    Subject,
}

/// The characters of `s`, in order.
pub(crate) fn chars_of(s: &str) -> (v: Vec<char>)
    ensures
        v@ == s@,
{
    let mut v: Vec<char> = Vec::new();
    for c in it: s.chars()
        invariant
            it.seq() == s@,
            v@ == it.seq().take(it.index()),
    {
        v.push(c);
        assert(v@ == it.seq().take(it.index() + 1));
    }
    v
}

/// `path` with one leading `/` dropped, then with a leading `v2/` dropped.
pub open spec fn spec_strip_api_prefixes(path: Seq<char>) -> Seq<char> {
    let p = if path.len() > 0 && path[0] == '/' { path.drop_first() } else { path };
    if p.len() >= 3 && p[0] == 'v' && p[1] == '2' && p[2] == '/' {
        p.skip(3)
    } else {
        p
    }
}

/// `s` with one trailing `/` dropped.
pub open spec fn drop_trailing_slash(s: Seq<char>) -> Seq<char> {
    if s.len() > 0 && s.last() == '/' {
        s.drop_last()
    } else {
        s
    }
}

/// The pieces of `s` between its `/` characters, as `str::split('/')` yields
/// them: `n` slashes give `n + 1` pieces, empty ones included.
pub open spec fn split_on_slash(s: Seq<char>) -> Seq<Seq<char>>
    decreases s.len(),
{
    if s.len() == 0 {
        seq![Seq::empty()]
    } else {
        let rest = split_on_slash(s.drop_last());
        if s.last() == '/' {
            rest.push(Seq::empty())
        } else {
            rest.update(rest.len() - 1, rest.last().push(s.last()))
        }
    }
}

/// The columns of a prefix-stripped path.
pub open spec fn spec_columns(path: Seq<char>) -> Seq<Seq<char>> {
    split_on_slash(drop_trailing_slash(path))
}

/// The views of a list of string slices.
pub open spec fn views_of(v: Seq<&str>) -> Seq<Seq<char>> {
    v.map_values(|s: &str| s@)
}

/// There is always at least one piece.
pub proof fn lemma_split_nonempty(s: Seq<char>)
    ensures
        split_on_slash(s).len() >= 1,
    decreases s.len(),
{
    if s.len() > 0 {
        lemma_split_nonempty(s.drop_last());
    }
}

/// Strip the leading `/` and any `v2/` prefix, leaving a path at `{org_id}`.
/// Returns a `&str` so callers can still see a trailing slash (e.g. the
/// Elasticsearch root ping `GET /{org}/`). `v2` as an org name is no prefix.
pub fn strip_api_prefixes(path: &str) -> (r: &str)
    ensures
        r@ == spec_strip_api_prefixes(path@),
{
    let n = path.unicode_len();
    let (p, pn) = if n > 0 && path.get_char(0) == '/' {
        (path.substring_char(1, n), n - 1)
    } else {
        (path, n)
    };
    proof {
        assert(path@.drop_first() =~= path@.subrange(1, n as int));
    }
    if pn >= 3 && p.get_char(0) == 'v' && p.get_char(1) == '2' && p.get_char(2) == '/' {
        proof {
            assert(p@.skip(3) =~= p@.subrange(3, pn as int));
        }
        p.substring_char(3, pn)
    } else {
        p
    }
}

/// Split a prefix-stripped path for matching, dropping one trailing slash.
pub fn columns(path: &str) -> (r: Vec<&str>)
    ensures
        views_of(r@) == spec_columns(path@),
{
    let chars = chars_of(path);
    let mut end = chars.len();
    if end > 0 && chars[end - 1] == '/' {
        end = end - 1;
    }
    let ghost s = drop_trailing_slash(path@);
    assert(s =~= path@.take(end as int));
    let mut out: Vec<&str> = Vec::new();
    let mut start: usize = 0;
    proof {
        assert(s.take(0) =~= Seq::<char>::empty());
        assert(path@.subrange(0, 0) =~= Seq::<char>::empty());
        assert(views_of(out@) =~= Seq::<Seq<char>>::empty());
        assert(split_on_slash(s.take(0)) =~= seq![Seq::<char>::empty()]);
    }
    for i in 0..end
        invariant
            chars@ == path@,
            end <= chars.len(),
            s == path@.take(end as int),
            start <= i,
            split_on_slash(s.take(i as int)) == views_of(out@).push(
                path@.subrange(start as int, i as int),
            ),
    {
        let ghost prev = views_of(out@);
        assert(s.take(i + 1).drop_last() =~= s.take(i as int));
        if chars[i] == '/' {
            out.push(path.substring_char(start, i));
            assert(views_of(out@) =~= prev.push(path@.subrange(start as int, i as int)));
            start = i + 1;
            assert(path@.subrange(start as int, start as int) =~= Seq::<char>::empty());
        } else {
            assert(path@.subrange(start as int, i + 1) =~= path@.subrange(
                start as int,
                i as int,
            ).push(chars@[i as int]));
        }
    }
    let ghost prev = views_of(out@);
    out.push(path.substring_char(start, end));
    assert(views_of(out@) =~= prev.push(path@.subrange(start as int, end as int)));
    assert(s.take(end as int) =~= s);
    out
}

/// A column that `p` admits, where `subject_ok` says whether the subject
/// predicate accepted it.
pub open spec fn seg_admits(p: Seg, col: Seq<char>, subject_ok: bool) -> bool {
    match p {
        Seg::Lit(lit) => col == lit@,
        Seg::Param => col.len() > 0,
        Seg::Subject => subject_ok,
    }
}

/// A column that `p` refuses, where `subject_refused` says whether the subject
/// predicate rejected it.
pub open spec fn seg_refuses(p: Seg, col: Seq<char>, subject_refused: bool) -> bool {
    match p {
        Seg::Lit(lit) => col != lit@,
        Seg::Param => col.len() == 0,
        Seg::Subject => subject_refused,
    }
}

/// Whether `a` and `b` are the same string, compared character by
/// character.
pub(crate) fn str_eq(a: &str, b: &str) -> (r: bool)
    ensures
        r == (a@ == b@),
{
    let ca = chars_of(a);
    let cb = chars_of(b);
    if ca.len() != cb.len() {
        return false;
    }
    let n = ca.len();
    for i in 0..n
        invariant
            n == ca@.len(),
            n == cb@.len(),
            ca@ == a@,
            cb@ == b@,
            forall|j: int| 0 <= j < i ==> ca@[j] == cb@[j],
    {
        if ca[i] != cb[i] {
            return false;
        }
    }
    assert(a@ =~= b@);
    true
}

/// `subject_matches` decides [`Seg::Subject`] segments; pass `|_| false` from
/// tables with no subject-constrained routes.
///
/// The match is exact in length and positional: column `i` is compared with
/// pattern `i` only.
pub fn segments_match(
    patterns: &[Seg],
    columns: &[&str],
    subject_matches: impl Fn(&str) -> bool,
) -> (r: bool)
    requires
        forall|s: &str| call_requires(subject_matches, (s,)),
    ensures
        r ==> all_admitted(patterns@, columns@, subject_matches),
        !r ==> patterns@.len() != columns@.len() || exists|i: int|
            0 <= i < patterns@.len() && #[trigger] seg_refuses(
                patterns@[i],
                columns@[i]@,
                call_ensures(subject_matches, (columns@[i],), false),
            ),
{
    if patterns.len() != columns.len() {
        return false;
    }
    let n = patterns.len();
    for i in 0..n
        invariant
            n == patterns@.len(),
            n == columns@.len(),
            forall|s: &str| call_requires(subject_matches, (s,)),
            forall|j: int|
                0 <= j < i ==> #[trigger] seg_admits(
                    patterns@[j],
                    columns@[j]@,
                    call_ensures(subject_matches, (columns@[j],), true),
                ),
    {
        let col = columns[i];
        let ok = match patterns[i] {
            Seg::Lit(lit) => str_eq(col, lit),
            Seg::Param => !col.is_empty(),
            Seg::Subject => subject_matches(col),
        };
        if !ok {
            assert(seg_refuses(
                patterns@[i as int],
                columns@[i as int]@,
                call_ensures(subject_matches, (columns@[i as int],), false),
            ));
            return false;
        }
    }
    true
}

/// The pieces joined back together with `/` between them.
pub open spec fn join_with_slash(parts: Seq<Seq<char>>) -> Seq<char>
    decreases parts.len(),
{
    if parts.len() == 0 {
        Seq::empty()
    } else if parts.len() == 1 {
        parts[0]
    } else {
        join_with_slash(parts.drop_last()) + seq!['/'] + parts.last()
    }
}

/// Joining the pieces with `/` gives back the string that was split.
pub proof fn lemma_join_split(s: Seq<char>)
    ensures
        join_with_slash(split_on_slash(s)) == s,
    decreases s.len(),
{
    if s.len() > 0 {
        let t = s.drop_last();
        let rest = split_on_slash(t);
        lemma_join_split(t);
        lemma_split_nonempty(t);
        if s.last() == '/' {
            let parts = rest.push(Seq::empty());
            assert(parts.drop_last() =~= rest);
            assert(s =~= t + seq!['/'] + Seq::<char>::empty());
        } else {
            let parts = rest.update(rest.len() - 1, rest.last().push(s.last()));
            if rest.len() == 1 {
                assert(s =~= t.push(s.last()));
            } else {
                assert(parts.drop_last() =~= rest.drop_last());
                assert(join_with_slash(rest) == join_with_slash(rest.drop_last()) + seq!['/']
                    + rest.last());
                let a = join_with_slash(rest.drop_last()) + seq!['/'];
                assert(s =~= t.push(s.last()));
                assert((a + rest.last()).push(s.last()) =~= a + rest.last().push(s.last()));
            }
        }
    }
}

/// No piece holds a `/`.
pub proof fn lemma_split_pieces_have_no_slash(s: Seq<char>)
    ensures
        forall|i: int|
            0 <= i < split_on_slash(s).len() ==> !(#[trigger] split_on_slash(s)[i]).contains('/'),
    decreases s.len(),
{
    if s.len() > 0 {
        let t = s.drop_last();
        lemma_split_pieces_have_no_slash(t);
        lemma_split_nonempty(t);
        let rest = split_on_slash(t);
        if s.last() != '/' {
            let last = rest.last().push(s.last());
            assert forall|j: int| 0 <= j < last.len() implies last[j] != '/' by {
                if j < rest.last().len() {
                    assert(last[j] == rest[rest.len() - 1][j]);
                }
            }
        }
    }
}

/// Columns law: the columns of a path, joined with `/`, give the path back
/// without one trailing `/`; no column holds a `/`, and there is always at
/// least one column.
pub proof fn lemma_columns_rejoin(path: Seq<char>)
    ensures
        join_with_slash(spec_columns(path)) == drop_trailing_slash(path),
        spec_columns(path).len() >= 1,
        forall|i: int|
            0 <= i < spec_columns(path).len() ==> !(#[trigger] spec_columns(path)[i]).contains(
                '/',
            ),
{
    lemma_join_split(drop_trailing_slash(path));
    lemma_split_nonempty(drop_trailing_slash(path));
    lemma_split_pieces_have_no_slash(drop_trailing_slash(path));
}

/// Trailing-slash law: one trailing `/` does not change the columns.
pub proof fn lemma_columns_ignore_one_trailing_slash(path: Seq<char>)
    requires
        path.len() == 0 || path.last() != '/',
    ensures
        spec_columns(path.push('/')) == spec_columns(path),
{
    assert(path.push('/').drop_last() =~= path);
}

/// Prefix law: the stripped path is a suffix of the path.
pub proof fn lemma_strip_is_suffix(path: Seq<char>)
    ensures
        spec_strip_api_prefixes(path).len() <= path.len(),
        spec_strip_api_prefixes(path) == path.skip(
            path.len() - spec_strip_api_prefixes(path).len(),
        ),
{
    let p = if path.len() > 0 && path[0] == '/' { path.drop_first() } else { path };
    assert(path.drop_first() =~= path.skip(1));
    if p.len() >= 3 && p[0] == 'v' && p[1] == '2' && p[2] == '/' {
        assert(p.skip(3) =~= path.skip(path.len() - p.skip(3).len()));
    } else {
        assert(p =~= path.skip(path.len() - p.len()));
    }
}

/// Prefix law: a leading `/`, a leading `v2/`, or both in that order, are
/// dropped, and a path that has neither is left as it is.
pub proof fn lemma_strip_prefixes(rest: Seq<char>)
    requires
        rest.len() == 0 || rest[0] != '/',
        !(rest.len() >= 3 && rest[0] == 'v' && rest[1] == '2' && rest[2] == '/'),
    ensures
        spec_strip_api_prefixes(rest) == rest,
        spec_strip_api_prefixes(seq!['/'] + rest) == rest,
        spec_strip_api_prefixes(seq!['v', '2', '/'] + rest) == rest,
        spec_strip_api_prefixes(seq!['/', 'v', '2', '/'] + rest) == rest,
{
    assert((seq!['/'] + rest).drop_first() =~= rest);
    assert((seq!['v', '2', '/'] + rest).skip(3) =~= rest);
    assert((seq!['/', 'v', '2', '/'] + rest).drop_first() =~= seq!['v', '2', '/'] + rest);
}

/// Whether the success clause of [`segments_match`] holds: equal lengths, and
/// every column admitted by its pattern, `f` having answered `true` at the
/// subject positions.
pub open spec fn all_admitted<F: Fn(&str) -> bool>(
    patterns: Seq<Seg>,
    columns: Seq<&str>,
    f: F,
) -> bool {
    &&& patterns.len() == columns.len()
    &&& forall|k: int|
        0 <= k < patterns.len() ==> #[trigger] seg_admits(
            patterns[k],
            columns[k]@,
            call_ensures(f, (columns[k],), true),
        )
}

/// Trailing-slash law for whole paths: one trailing `/` does not change the
/// columns of the stripped path, unless the path is `v2` or `/v2`, where the
/// slash turns `v2` from an org name into the prefix.
pub proof fn lemma_stripped_columns_ignore_one_trailing_slash(path: Seq<char>)
    requires
        path.len() == 0 || path.last() != '/',
        path != seq!['v', '2'],
        path != seq!['/', 'v', '2'],
    ensures
        spec_columns(spec_strip_api_prefixes(path.push('/'))) == spec_columns(
            spec_strip_api_prefixes(path),
        ),
{
    let q = path.push('/');
    if path.len() == 0 {
        assert(q.drop_first() =~= Seq::<char>::empty());
    } else {
        let p = if path[0] == '/' { path.drop_first() } else { path };
        let p1 = if q[0] == '/' { q.drop_first() } else { q };
        assert(p1 =~= p.push('/'));
        let x = spec_strip_api_prefixes(path);
        if p.len() >= 3 && p[0] == 'v' && p[1] == '2' && p[2] == '/' {
            assert(p1.skip(3) =~= p.skip(3).push('/'));
        } else {
            if p1.len() >= 3 && p1[0] == 'v' && p1[1] == '2' && p1[2] == '/' {
                assert(p =~= seq!['v', '2']);
                if path[0] == '/' {
                    assert(path =~= seq!['/', 'v', '2']);
                } else {
                    assert(path =~= seq!['v', '2']);
                }
            }
        }
        lemma_strip_is_suffix(path);
        if x.len() > 0 {
            assert(x.last() == path.last());
        }
        assert(spec_strip_api_prefixes(q) =~= x.push('/'));
        assert(x.push('/').drop_last() =~= x);
    }
}

/// Fail-closed law: when the subject predicate never answers `true`, a
/// pattern holding a [`Seg::Subject`] admits no columns, so
/// [`segments_match`] refuses it; a [`Seg::Param`] facing an empty column is
/// refused too.
pub proof fn lemma_subject_fails_closed<F: Fn(&str) -> bool>(
    patterns: Seq<Seg>,
    columns: Seq<&str>,
    f: F,
    i: int,
)
    requires
        0 <= i < patterns.len(),
        patterns[i] is Subject ==> forall|s: &str| !call_ensures(f, (s,), true),
        patterns[i] is Param ==> i < columns.len() && columns[i]@.len() == 0,
        patterns[i] is Subject || patterns[i] is Param,
    ensures
        !all_admitted(patterns, columns, f),
{
    if all_admitted(patterns, columns, f) {
        assert(seg_admits(patterns[i], columns[i]@, call_ensures(f, (columns[i],), true)));
    }
}

} // verus!

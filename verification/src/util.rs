//! Path helpers shared by the segments.

use vstd::prelude::*;

verus! {

/// `p` with every trailing `'/'` removed.
pub open spec fn strip_trailing_slashes(p: Seq<char>) -> Seq<char>
    decreases p.len(),
{
    if p.len() > 0 && p.last() == '/' {
        strip_trailing_slashes(p.drop_last())
    } else {
        p
    }
}

/// The part of `p` after its last `'/'` (all of `p` when it holds none).
pub open spec fn after_last_slash(p: Seq<char>) -> Seq<char>
    decreases p.len(),
{
    if p.len() == 0 {
        p
    } else if p.last() == '/' {
        Seq::empty()
    } else {
        after_last_slash(p.drop_last()).push(p.last())
    }
}

/// The last non-empty component of a `'/'`-separated path; empty when the
/// path has no non-empty component.
pub open spec fn basename(p: Seq<char>) -> Seq<char> {
    after_last_slash(strip_trailing_slashes(p))
}

/// Whether `s` holds no `'/'`.
pub open spec fn no_slash(s: Seq<char>) -> bool {
    forall|i: int| 0 <= i < s.len() ==> s[i] != '/'
}

proof fn lemma_after_last_slash_no_slash(p: Seq<char>)
    ensures
        no_slash(after_last_slash(p)),
    decreases p.len(),
{
    if p.len() > 0 && p.last() != '/' {
        lemma_after_last_slash_no_slash(p.drop_last());
        let a = after_last_slash(p.drop_last());
        assert forall|i: int| 0 <= i < a.push(p.last()).len() implies a.push(p.last())[i] != '/' by {
            if i < a.len() {
                assert(a.push(p.last())[i] == a[i]);
            }
        }
    }
}

proof fn lemma_after_last_slash_append(dir: Seq<char>, name: Seq<char>)
    requires
        no_slash(name),
        dir.len() == 0 || dir.last() == '/',
    ensures
        after_last_slash(dir + name) == name,
    decreases name.len(),
{
    if name.len() == 0 {
        assert(dir + name =~= dir);
    } else {
        let init = name.drop_last();
        assert forall|i: int| 0 <= i < init.len() implies init[i] != '/' by {
            assert(init[i] == name[i]);
        }
        lemma_after_last_slash_append(dir, init);
        assert((dir + name).drop_last() =~= dir + init);
        assert((dir + name).last() == name.last());
        assert(init.push(name.last()) =~= name);
    }
}

/// The basename holds no `'/'`.
pub proof fn law_basename_has_no_slash(p: Seq<char>)
    ensures
        no_slash(basename(p)),
{
    lemma_after_last_slash_no_slash(strip_trailing_slashes(p));
}

/// The basename of `dir` followed by a non-empty name without `'/'`, where
/// `dir` is empty or ends in `'/'`, is that name: `/home/user/project` gives
/// `project`, a bare `venv` gives `venv`.
pub proof fn law_basename_is_last_component(dir: Seq<char>, name: Seq<char>)
    requires
        name.len() > 0,
        no_slash(name),
        dir.len() == 0 || dir.last() == '/',
    ensures
        basename(dir + name) == name,
{
    assert((dir + name).last() == name[name.len() - 1]);
    assert(strip_trailing_slashes(dir + name) == dir + name);
    lemma_after_last_slash_append(dir, name);
}

/// Trailing slashes do not change the basename: `/home/user/project/` gives
/// the same as `/home/user/project`.
pub proof fn law_basename_ignores_trailing_slash(p: Seq<char>)
    ensures
        basename(p.push('/')) == basename(p),
{
    assert(p.push('/').drop_last() =~= p);
}

proof fn lemma_strip_at(p: Seq<char>) -> (k: int)
    ensures
        0 <= k <= p.len(),
        strip_trailing_slashes(p) == p.subrange(0, k),
        forall|i: int| k <= i < p.len() ==> #[trigger] p[i] == '/',
        k > 0 ==> p[k - 1] != '/',
    decreases p.len(),
{
    if p.len() > 0 && p.last() == '/' {
        let init = p.drop_last();
        let k1 = lemma_strip_at(init);
        assert(init.subrange(0, k1) =~= p.subrange(0, k1));
        assert forall|i: int| k1 <= i < p.len() implies #[trigger] p[i] == '/' by {
            if i < p.len() - 1 {
                assert(p[i] == init[i]);
            }
        }
        if k1 > 0 {
            assert(p[k1 - 1] == init[k1 - 1]);
        }
        k1
    } else {
        assert(p.subrange(0, p.len() as int) =~= p);
        p.len() as int
    }
}

/// The basename is empty exactly when the path is nothing but slashes
/// (or empty): `/` and `///` give nothing, any other path a component.
pub proof fn law_basename_empty_iff_only_slashes(p: Seq<char>)
    ensures
        basename(p).len() == 0 <==> forall|i: int| 0 <= i < p.len() ==> #[trigger] p[i] == '/',
{
    let k = lemma_strip_at(p);
    let q = p.subrange(0, k);
    if k > 0 {
        assert(q.last() == p[k - 1]);
        assert(after_last_slash(q) == after_last_slash(q.drop_last()).push(q.last()));
        assert(!(p[k - 1] == '/'));
    } else {
        assert(q =~= Seq::<char>::empty());
        assert forall|i: int| 0 <= i < p.len() implies #[trigger] p[i] == '/' by {}
    }
}

/// Taking the basename twice gives the basename.
pub proof fn law_basename_idempotent(p: Seq<char>)
    ensures
        basename(basename(p)) == basename(p),
{
    let b = basename(p);
    law_basename_has_no_slash(p);
    if b.len() > 0 {
        law_basename_is_last_component(Seq::empty(), b);
        assert(Seq::<char>::empty() + b =~= b);
    } else {
        assert(b =~= Seq::<char>::empty());
    }
}

/// Extract the last non-empty path component from a `/`-separated path.
///
/// Returns an empty string for root paths or paths with no non-empty segments.
pub fn path_basename(path: &str) -> (r: &str)
    ensures
        r@ == basename(path@),
{
    let n = path.unicode_len();
    let ghost p = path@;
    let mut end: usize = n;
    assert(p.subrange(0, n as int) =~= p);
    while end > 0 && path.get_char(end - 1) == '/'
        invariant
            end <= n,
            n == p.len(),
            p == path@,
            strip_trailing_slashes(p) == strip_trailing_slashes(p.subrange(0, end as int)),
        decreases end,
    {
        assert(p.subrange(0, end as int).drop_last() =~= p.subrange(0, end - 1));
        end = end - 1;
    }
    assert(strip_trailing_slashes(p) == p.subrange(0, end as int));
    let mut start: usize = end;
    assert(p.subrange(start as int, end as int) =~= Seq::<char>::empty());
    assert(after_last_slash(p.subrange(0, end as int)) =~= after_last_slash(
        p.subrange(0, start as int),
    ) + p.subrange(start as int, end as int));
    while start > 0 && path.get_char(start - 1) != '/'
        invariant
            start <= end <= n,
            n == p.len(),
            p == path@,
            after_last_slash(p.subrange(0, end as int)) == after_last_slash(
                p.subrange(0, start as int),
            ) + p.subrange(start as int, end as int),
        decreases start,
    {
        let ghost pre = p.subrange(0, start as int);
        assert(pre.drop_last() =~= p.subrange(0, start - 1));
        assert(after_last_slash(pre) == after_last_slash(pre.drop_last()).push(pre.last()));
        assert(after_last_slash(pre) + p.subrange(start as int, end as int) =~= after_last_slash(
            pre.drop_last(),
        ) + p.subrange(start - 1, end as int));
        start = start - 1;
    }
    assert(after_last_slash(p.subrange(0, start as int)) =~= Seq::<char>::empty());
    assert(after_last_slash(p.subrange(0, end as int)) =~= p.subrange(start as int, end as int));
    path.substring_char(start, end)
}

/// The Unicode `White_Space` property, the whitespace that `str::trim`
/// removes.
pub open spec fn is_white_space(c: char) -> bool {
    ||| ('\u{9}' <= c && c <= '\u{d}')
    ||| c == ' '
    ||| c == '\u{85}'
    ||| c == '\u{a0}'
    ||| c == '\u{1680}'
    ||| ('\u{2000}' <= c && c <= '\u{200a}')
    ||| c == '\u{2028}'
    ||| c == '\u{2029}'
    ||| c == '\u{202f}'
    ||| c == '\u{205f}'
    ||| c == '\u{3000}'
}

/// Whether `c` has the Unicode `White_Space` property.
pub fn is_white_space_char(c: char) -> (b: bool)
    ensures
        b == is_white_space(c),
{
    ('\u{9}' <= c && c <= '\u{d}') || c == ' ' || c == '\u{85}' || c == '\u{a0}' || c
        == '\u{1680}' || ('\u{2000}' <= c && c <= '\u{200a}') || c == '\u{2028}' || c
        == '\u{2029}' || c == '\u{202f}' || c == '\u{205f}' || c == '\u{3000}'
}

/// `s` without its leading whitespace.
pub open spec fn trim_start(s: Seq<char>) -> Seq<char>
    decreases s.len(),
{
    if s.len() > 0 && is_white_space(s[0]) {
        trim_start(s.drop_first())
    } else {
        s
    }
}

/// `s` without its trailing whitespace.
pub open spec fn trim_end(s: Seq<char>) -> Seq<char>
    decreases s.len(),
{
    if s.len() > 0 && is_white_space(s.last()) {
        trim_end(s.drop_last())
    } else {
        s
    }
}

/// `s` without leading and trailing whitespace.
pub open spec fn trimmed(s: Seq<char>) -> Seq<char> {
    trim_end(trim_start(s))
}

proof fn lemma_trim_start_at(s: Seq<char>) -> (k: int)
    ensures
        0 <= k <= s.len(),
        trim_start(s) == s.subrange(k, s.len() as int),
        forall|i: int| 0 <= i < k ==> is_white_space(#[trigger] s[i]),
        k < s.len() ==> !is_white_space(s[k]),
    decreases s.len(),
{
    if s.len() > 0 && is_white_space(s[0]) {
        let rest = s.drop_first();
        let k1 = lemma_trim_start_at(rest);
        assert(rest.subrange(k1, rest.len() as int) =~= s.subrange(k1 + 1, s.len() as int));
        assert forall|i: int| 0 <= i < k1 + 1 implies is_white_space(#[trigger] s[i]) by {
            if i > 0 {
                assert(s[i] == rest[i - 1]);
            }
        }
        if k1 + 1 < s.len() {
            assert(s[k1 + 1] == rest[k1]);
        }
        k1 + 1
    } else {
        assert(s.subrange(0, s.len() as int) =~= s);
        0
    }
}

proof fn lemma_trim_end_at(s: Seq<char>) -> (k: int)
    ensures
        0 <= k <= s.len(),
        trim_end(s) == s.subrange(0, k),
        forall|i: int| k <= i < s.len() ==> is_white_space(#[trigger] s[i]),
        k > 0 ==> !is_white_space(s[k - 1]),
    decreases s.len(),
{
    if s.len() > 0 && is_white_space(s.last()) {
        let init = s.drop_last();
        let k1 = lemma_trim_end_at(init);
        assert(init.subrange(0, k1) =~= s.subrange(0, k1));
        assert forall|i: int| k1 <= i < s.len() implies is_white_space(#[trigger] s[i]) by {
            if i < s.len() - 1 {
                assert(s[i] == init[i]);
            }
        }
        if k1 > 0 {
            assert(s[k1 - 1] == init[k1 - 1]);
        }
        k1
    } else {
        assert(s.subrange(0, s.len() as int) =~= s);
        s.len() as int
    }
}

/// Trimming keeps a contiguous stretch of `s`: everything before and after
/// it is whitespace, and it neither starts nor ends with whitespace. It is
/// empty exactly when `s` is all whitespace.
pub proof fn law_trimmed_shape(s: Seq<char>)
    ensures
        exists|a: int, b: int|
            {
                &&& 0 <= a <= b <= s.len()
                &&& trimmed(s) == s.subrange(a, b)
                &&& forall|i: int| 0 <= i < a ==> is_white_space(#[trigger] s[i])
                &&& forall|i: int| b <= i < s.len() ==> is_white_space(#[trigger] s[i])
                &&& a < b ==> !is_white_space(s[a]) && !is_white_space(s[b - 1])
            },
        trimmed(s).len() == 0 <==> forall|i: int| 0 <= i < s.len() ==> is_white_space(#[trigger] s[i]),
{
    let a = lemma_trim_start_at(s);
    let t = s.subrange(a, s.len() as int);
    let k = lemma_trim_end_at(t);
    let b = a + k;
    assert(t.subrange(0, k) =~= s.subrange(a, b));
    assert forall|i: int| b <= i < s.len() implies is_white_space(#[trigger] s[i]) by {
        assert(s[i] == t[i - a]);
    }
    if a < b {
        assert(s[a] == t[0]);
        assert(s[b - 1] == t[k - 1]);
        assert(!is_white_space(t[0]));
    }
    assert(0 <= a <= b <= s.len() && trimmed(s) == s.subrange(a, b));
    if trimmed(s).len() == 0 {
        assert forall|i: int| 0 <= i < s.len() implies is_white_space(#[trigger] s[i]) by {
            if i >= a {
                assert(b == a);
            }
        }
    }
    if forall|i: int| 0 <= i < s.len() ==> is_white_space(#[trigger] s[i]) {
        if a < s.len() {
            assert(is_white_space(s[a]));
        }
    }
}

/// The part of `s` left when leading and trailing whitespace are removed,
/// as `str::trim` computes it.
pub fn trim_whitespace(s: &str) -> (r: &str)
    ensures
        r@ == trimmed(s@),
{
    let n = s.unicode_len();
    let ghost p = s@;
    let mut start: usize = 0;
    assert(p.subrange(0, n as int) =~= p);
    while start < n && is_white_space_char(s.get_char(start))
        invariant
            start <= n,
            n == p.len(),
            p == s@,
            trim_start(p) == trim_start(p.subrange(start as int, n as int)),
        decreases n - start,
    {
        assert(p.subrange(start as int, n as int).drop_first() =~= p.subrange(
            start + 1,
            n as int,
        ));
        start = start + 1;
    }
    assert(trim_start(p) == p.subrange(start as int, n as int));
    let mut end: usize = n;
    assert(p.subrange(start as int, end as int) == p.subrange(start as int, n as int));
    while end > start && is_white_space_char(s.get_char(end - 1))
        invariant
            start <= end <= n,
            n == p.len(),
            p == s@,
            trim_end(p.subrange(start as int, n as int)) == trim_end(
                p.subrange(start as int, end as int),
            ),
        decreases end,
    {
        assert(p.subrange(start as int, end as int).drop_last() =~= p.subrange(
            start as int,
            end - 1,
        ));
        end = end - 1;
    }
    assert(trim_end(p.subrange(start as int, end as int)) == p.subrange(start as int, end as int));
    s.substring_char(start, end)
}

} // verus!

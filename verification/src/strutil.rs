//! Verified string utilities: substring search, splitting and trimming.
//!
//! Everything here works character-wise over `Seq<char>` views.  The only
//! fact taken on trust is the Unicode whitespace classification of a single
//! character, which `char::is_whitespace` decides.

use vstd::prelude::*;
use vstd::seq_lib::*;

verus! {

/// Whether a character has the Unicode `White_Space` property.
pub uninterp spec fn unicode_whitespace(c: char) -> bool;

/// Relies on char::is_whitespace: whether the character has the Unicode
/// `White_Space` property, a fact of the character alone.
#[verifier::external_body]
pub fn is_ws(c: char) -> (r: bool)
    ensures
        r == unicode_whitespace(c),
{
    c.is_whitespace()
}

/// `needle` occurs in `s` at position `i`.
pub open spec fn matches_at(s: Seq<char>, needle: Seq<char>, i: int) -> bool {
    0 <= i && i + needle.len() <= s.len() && s.subrange(i, i + needle.len()) == needle
}

/// `needle` occurs somewhere in `s`.
pub open spec fn contains_seq(s: Seq<char>, needle: Seq<char>) -> bool {
    exists|i: int| matches_at(s, needle, i)
}

/// Does `needle` occur at character position `i` of `s`?
fn match_at(s: &str, needle: &str, i: usize) -> (r: bool)
    requires
        i + needle@.len() <= s@.len(),
        s@.len() <= usize::MAX,
    ensures
        r == matches_at(s@, needle@, i as int),
{
    let n = needle.unicode_len();
    let mut j: usize = 0;
    while j < n
        invariant
            n == needle@.len(),
            i + n <= s@.len() <= usize::MAX,
            0 <= j <= n,
            forall|k: int| 0 <= k < j ==> s@[i + k] == needle@[k],
        decreases n - j,
    {
        if s.get_char(i + j) != needle.get_char(j) {
            assert(s@.subrange(i as int, i + needle@.len())[j as int] == s@[i + j]);
            return false;
        }
        j += 1;
    }
    assert(s@.subrange(i as int, i + needle@.len()) =~= needle@);
    true
}

/// Substring search: does `needle` occur anywhere in `s`?
pub fn contains_str(s: &str, needle: &str) -> (r: bool)
    ensures
        r == contains_seq(s@, needle@),
{
    let slen = s.unicode_len();
    let nlen = needle.unicode_len();
    if nlen > slen {
        return false;
    }
    if nlen == 0 {
        assert(s@.subrange(0, 0) =~= needle@);
        assert(matches_at(s@, needle@, 0));
        return true;
    }
    let mut i: usize = 0;
    while i <= slen - nlen
        invariant
            slen == s@.len() <= usize::MAX,
            nlen == needle@.len(),
            1 <= nlen <= slen,
            0 <= i <= slen - nlen + 1,
            forall|k: int| 0 <= k < i ==> !matches_at(s@, needle@, k),
        decreases slen - nlen - i + 1,
    {
        if match_at(s, needle, i) {
            return true;
        }
        i += 1;
    }
    assert forall|k: int| !matches_at(s@, needle@, k) by {
        if matches_at(s@, needle@, k) {
            assert(0 <= k && k + nlen <= slen);
        }
    }
    false
}

/// Does `s` start with `prefix`?
pub fn str_starts_with(s: &str, prefix: &str) -> (r: bool)
    ensures
        r == prefix@.is_prefix_of(s@),
{
    let slen = s.unicode_len();
    let plen = prefix.unicode_len();
    if plen > slen {
        return false;
    }
    let r = match_at(s, prefix, 0);
    proof {
        if matches_at(s@, prefix@, 0) {
            assert(prefix@ =~= s@.subrange(0, plen as int));
        }
        if prefix@.is_prefix_of(s@) {
            assert(s@.subrange(0, plen as int) =~= prefix@);
        }
    }
    r
}

/// Split `s` at every occurrence of `c`.  Empty segments are kept, so the
/// result always holds at least one segment.
pub open spec fn split_on(s: Seq<char>, c: char) -> Seq<Seq<char>>
    decreases s.len(),
{
    if s.len() == 0 {
        seq![s]
    } else {
        let rest = split_on(s.drop_first(), c);
        if s[0] == c {
            seq![Seq::<char>::empty()] + rest
        } else {
            seq![seq![s[0]] + rest[0]] + rest.drop_first()
        }
    }
}

pub proof fn lemma_split_on_len(s: Seq<char>, c: char)
    ensures
        split_on(s, c).len() >= 1,
    decreases s.len(),
{
    if s.len() > 0 {
        lemma_split_on_len(s.drop_first(), c);
    }
}

/// If the characters before position `k` are all other than `c`, and `k` is
/// the end of `t` or holds `c`, then the first segment of the split is
/// exactly `t.take(k)`.
proof fn lemma_split_on_segment(t: Seq<char>, c: char, k: int)
    requires
        0 <= k <= t.len(),
        forall|j: int| 0 <= j < k ==> t[j] != c,
        k == t.len() || t[k] == c,
    ensures
        k == t.len() ==> split_on(t, c) == seq![t],
        k < t.len() ==> split_on(t, c) == seq![t.take(k)] + split_on(t.skip(k + 1), c),
    decreases t.len(),
{
    lemma_split_on_len(t.drop_first(), c);
    if t.len() == 0 {
        assert(split_on(t, c) =~~= seq![t]);
    } else if k == 0 {
        assert(t[0] == c);
        assert(t.skip(1) =~= t.drop_first());
        assert(t.take(0) =~= Seq::<char>::empty());
        assert(split_on(t, c) =~~= seq![t.take(0)] + split_on(t.skip(1), c));
    } else {
        let rest = split_on(t.drop_first(), c);
        assert forall|j: int| 0 <= j < k - 1 implies t.drop_first()[j] != c by {
            assert(t.drop_first()[j] == t[j + 1]);
        }
        if k == t.len() {
            lemma_split_on_segment(t.drop_first(), c, k - 1);
            assert(rest == seq![t.drop_first()]);
            assert(seq![t[0]] + t.drop_first() =~= t);
            assert(split_on(t, c) =~~= seq![t]);
        } else {
            assert(t.drop_first()[k - 1] == t[k]);
            lemma_split_on_segment(t.drop_first(), c, k - 1);
            assert(rest == seq![t.drop_first().take(k - 1)] + split_on(
                t.drop_first().skip(k),
                c,
            ));
            assert(seq![t[0]] + t.drop_first().take(k - 1) =~= t.take(k));
            assert(t.drop_first().skip(k) =~= t.skip(k + 1));
            assert(rest.drop_first() =~~= split_on(t.skip(k + 1), c));
            assert(split_on(t, c) =~~= seq![t.take(k)] + split_on(t.skip(k + 1), c));
        }
    }
}

/// First position at or after `from` where `c` stands in `s`, or the length
/// of `s` where `c` does not occur again.
fn find_char_from(s: &str, c: char, from: usize) -> (r: usize)
    requires
        from <= s@.len(),
        s@.len() <= usize::MAX,
    ensures
        from <= r <= s@.len(),
        forall|j: int| from <= j < r ==> s@[j] != c,
        r < s@.len() ==> s@[r as int] == c,
{
    let slen = s.unicode_len();
    let mut q = from;
    while q < slen
        invariant
            slen == s@.len(),
            from <= q <= slen,
            forall|j: int| from <= j < q ==> s@[j] != c,
        decreases slen - q,
    {
        if s.get_char(q) == c {
            return q;
        }
        q += 1;
    }
    q
}

/// Split `s` at every occurrence of `c`, keeping empty segments, as the
/// specification `split_on` describes.
pub fn split_on_str(s: &str, c: char) -> (r: Vec<String>)
    ensures
        r.deep_view() == split_on(s@, c),
{
    let slen = s.unicode_len();
    let mut out: Vec<String> = Vec::new();
    let mut p: usize = 0;
    proof {
        assert(s@.skip(0) =~= s@);
        assert(out.deep_view() =~= Seq::<Seq<char>>::empty());
    }
    loop
        invariant_except_break
            split_on(s@, c) == out.deep_view() + split_on(s@.skip(p as int), c),
        invariant
            slen == s@.len() <= usize::MAX,
            p <= slen,
        ensures
            out.deep_view() == split_on(s@, c),
        decreases slen - p,
    {
        let q = find_char_from(s, c, p);
        let seg = String::from_str(s.substring_char(p, q));
        proof {
            assert forall|j: int| 0 <= j < q - p implies s@.skip(p as int)[j] != c by {
                assert(s@.skip(p as int)[j] == s@[p + j]);
            }
            if (q as int) < slen as int {
                assert(s@.skip(p as int)[q - p] == s@[q as int]);
            }
            lemma_split_on_segment(s@.skip(p as int), c, q - p);
            assert(seg@ =~= s@.skip(p as int).take(q - p));
        }
        let ghost old_deep = out.deep_view();
        out.push(seg);
        proof {
            assert(out.deep_view() =~= old_deep.push(seg@));
        }
        if q == slen {
            proof {
                assert(seg@ =~= s@.skip(p as int));
                assert(out.deep_view() =~~= split_on(s@, c));
            }
            break ;
        }
        proof {
            assert(s@.skip(p as int).skip(q + 1 - p) =~= s@.skip(q + 1));
            assert(split_on(s@, c) =~~= out.deep_view() + split_on(s@.skip(q + 1), c));
        }
        p = q + 1;
    }
    out
}

/// Split `s` at runs of Unicode whitespace.  No segment is empty and no
/// segment holds a whitespace character.
pub open spec fn split_ws(s: Seq<char>) -> Seq<Seq<char>>
    decreases s.len(),
{
    if s.len() == 0 {
        Seq::empty()
    } else {
        let rest = split_ws(s.drop_first());
        if unicode_whitespace(s[0]) {
            rest
        } else if s.len() == 1 || unicode_whitespace(s[1]) {
            seq![seq![s[0]]] + rest
        } else {
            seq![seq![s[0]] + rest[0]] + rest.drop_first()
        }
    }
}

/// Leading whitespace does not change the whitespace split.
proof fn lemma_split_ws_leading(t: Seq<char>, a: int)
    requires
        0 <= a <= t.len(),
        forall|j: int| 0 <= j < a ==> unicode_whitespace(t[j]),
    ensures
        split_ws(t) == split_ws(t.skip(a)),
    decreases a,
{
    if a == 0 {
        assert(t.skip(0) =~= t);
    } else {
        assert(unicode_whitespace(t[0]));
        assert forall|j: int| 0 <= j < a - 1 implies unicode_whitespace(t.drop_first()[j]) by {
            assert(t.drop_first()[j] == t[j + 1]);
        }
        lemma_split_ws_leading(t.drop_first(), a - 1);
        assert(t.drop_first().skip(a - 1) =~= t.skip(a));
    }
}

/// If the first `k` characters are no whitespace and position `k` is the end
/// or whitespace, the first token of the split is exactly `t.take(k)`.
proof fn lemma_split_ws_token(t: Seq<char>, k: int)
    requires
        1 <= k <= t.len(),
        forall|j: int| 0 <= j < k ==> !unicode_whitespace(t[j]),
        k == t.len() || unicode_whitespace(t[k]),
    ensures
        split_ws(t) == seq![t.take(k)] + split_ws(t.skip(k)),
    decreases k,
{
    let rest = split_ws(t.drop_first());
    if k == 1 {
        if t.len() == 1 {
            assert(t.take(1) =~= seq![t[0]]);
            assert(t.skip(1) =~= t.drop_first());
            assert(split_ws(t) =~~= seq![t.take(1)] + split_ws(t.skip(1)));
        } else {
            assert(unicode_whitespace(t[1]));
            assert(t.take(1) =~= seq![t[0]]);
            assert(t.skip(1) =~= t.drop_first());
            assert(split_ws(t) =~~= seq![t.take(1)] + split_ws(t.skip(1)));
        }
    } else {
        assert(!unicode_whitespace(t[1])) by {
            assert(!unicode_whitespace(t[1 as int]));
        }
        assert forall|j: int| 0 <= j < k - 1 implies !unicode_whitespace(t.drop_first()[j]) by {
            assert(t.drop_first()[j] == t[j + 1]);
        }
        if k < t.len() {
            assert(t.drop_first()[k - 1] == t[k]);
        }
        lemma_split_ws_token(t.drop_first(), k - 1);
        assert(rest == seq![t.drop_first().take(k - 1)] + split_ws(t.drop_first().skip(k - 1)));
        assert(seq![t[0]] + t.drop_first().take(k - 1) =~= t.take(k));
        assert(t.drop_first().skip(k - 1) =~= t.skip(k));
        assert(rest.drop_first() =~~= split_ws(t.skip(k)));
        assert(split_ws(t) =~~= seq![t.take(k)] + split_ws(t.skip(k)));
    }
}

/// First position at or after `from` holding a non-whitespace character, or
/// the length of `s` where only whitespace follows.
fn skip_ws_from(s: &str, from: usize) -> (r: usize)
    requires
        from <= s@.len(),
        s@.len() <= usize::MAX,
    ensures
        from <= r <= s@.len(),
        forall|j: int| from <= j < r ==> unicode_whitespace(s@[j]),
        r < s@.len() ==> !unicode_whitespace(s@[r as int]),
{
    let slen = s.unicode_len();
    let mut q = from;
    while q < slen
        invariant
            slen == s@.len(),
            from <= q <= slen,
            forall|j: int| from <= j < q ==> unicode_whitespace(s@[j]),
        decreases slen - q,
    {
        if !is_ws(s.get_char(q)) {
            return q;
        }
        q += 1;
    }
    q
}

/// First position at or after `from` holding a whitespace character, or the
/// length of `s` where none follows.
fn find_ws_from(s: &str, from: usize) -> (r: usize)
    requires
        from <= s@.len(),
        s@.len() <= usize::MAX,
    ensures
        from <= r <= s@.len(),
        forall|j: int| from <= j < r ==> !unicode_whitespace(s@[j]),
        r < s@.len() ==> unicode_whitespace(s@[r as int]),
{
    let slen = s.unicode_len();
    let mut q = from;
    while q < slen
        invariant
            slen == s@.len(),
            from <= q <= slen,
            forall|j: int| from <= j < q ==> !unicode_whitespace(s@[j]),
        decreases slen - q,
    {
        if is_ws(s.get_char(q)) {
            return q;
        }
        q += 1;
    }
    q
}

/// Split `s` at runs of Unicode whitespace, as the specification `split_ws`
/// describes.
pub fn split_ws_str(s: &str) -> (r: Vec<String>)
    ensures
        r.deep_view() == split_ws(s@),
{
    let slen = s.unicode_len();
    let mut out: Vec<String> = Vec::new();
    let mut p: usize = 0;
    proof {
        assert(s@.skip(0) =~= s@);
        assert(out.deep_view() =~= Seq::<Seq<char>>::empty());
    }
    loop
        invariant_except_break
            split_ws(s@) == out.deep_view() + split_ws(s@.skip(p as int)),
        invariant
            slen == s@.len() <= usize::MAX,
            p <= slen,
        ensures
            out.deep_view() == split_ws(s@),
        decreases slen - p,
    {
        let q = skip_ws_from(s, p);
        proof {
            assert forall|j: int| 0 <= j < q - p implies unicode_whitespace(s@.skip(p as int)[j]) by {
                assert(s@.skip(p as int)[j] == s@[p + j]);
            }
            lemma_split_ws_leading(s@.skip(p as int), q - p);
            assert(s@.skip(p as int).skip(q - p) =~= s@.skip(q as int));
        }
        if q == slen {
            proof {
                assert(s@.skip(q as int).len() == 0);
                assert(out.deep_view() =~~= split_ws(s@));
            }
            break ;
        }
        let r_end = find_ws_from(s, q);
        let seg = String::from_str(s.substring_char(q, r_end));
        proof {
            assert forall|j: int| 0 <= j < r_end - q implies !unicode_whitespace(
                s@.skip(q as int)[j],
            ) by {
                assert(s@.skip(q as int)[j] == s@[q + j]);
            }
            if (r_end as int) < slen as int {
                assert(s@.skip(q as int)[r_end - q] == s@[r_end as int]);
            }
            assert(r_end - q >= 1) by {
                assert(!unicode_whitespace(s@[q as int]));
            }
            lemma_split_ws_token(s@.skip(q as int), r_end - q);
            assert(seg@ =~= s@.skip(q as int).take(r_end - q));
        }
        let ghost old_deep = out.deep_view();
        out.push(seg);
        proof {
            assert(out.deep_view() =~= old_deep.push(seg@));
            assert(s@.skip(q as int).skip(r_end - q) =~= s@.skip(r_end as int));
            assert(split_ws(s@) =~~= out.deep_view() + split_ws(s@.skip(r_end as int)));
        }
        p = r_end;
    }
    out
}

/// `s` holds whitespace alone (or nothing).
pub open spec fn all_ws(s: Seq<char>) -> bool {
    forall|i: int| 0 <= i < s.len() ==> unicode_whitespace(s[i])
}

/// Does `s` hold whitespace alone?
pub fn is_blank(s: &str) -> (r: bool)
    ensures
        r == all_ws(s@),
{
    let slen = s.unicode_len();
    let q = skip_ws_from(s, 0);
    q == slen
}

/// Number of leading whitespace characters of `s`.
pub open spec fn leading_ws(s: Seq<char>) -> int
    decreases s.len(),
{
    if s.len() == 0 {
        0
    } else if !unicode_whitespace(s[0]) {
        0
    } else {
        1 + leading_ws(s.drop_first())
    }
}

/// Position after the last non-whitespace character of `s`.
pub open spec fn trailing_ws_start(s: Seq<char>) -> int
    decreases s.len(),
{
    if s.len() == 0 {
        0
    } else if !unicode_whitespace(s.last()) {
        s.len() as int
    } else {
        trailing_ws_start(s.drop_last())
    }
}

/// `s` with leading and trailing whitespace removed.
pub open spec fn trim_of(s: Seq<char>) -> Seq<char> {
    let t = s.skip(leading_ws(s));
    t.take(trailing_ws_start(t))
}

/// `leading_ws` is the first non-whitespace position.
proof fn lemma_leading_ws_char(t: Seq<char>, a: int)
    requires
        0 <= a <= t.len(),
        forall|j: int| 0 <= j < a ==> unicode_whitespace(t[j]),
        a == t.len() || !unicode_whitespace(t[a]),
    ensures
        leading_ws(t) == a,
    decreases t.len(),
{
    if t.len() == 0 {
    } else if a == 0 {
    } else {
        assert forall|j: int| 0 <= j < a - 1 implies unicode_whitespace(t.drop_first()[j]) by {
            assert(t.drop_first()[j] == t[j + 1]);
        }
        if a < t.len() {
            assert(t.drop_first()[a - 1] == t[a]);
        }
        lemma_leading_ws_char(t.drop_first(), a - 1);
    }
}

/// `trailing_ws_start` is the position after the last non-whitespace
/// character.
proof fn lemma_trailing_ws_char(t: Seq<char>, b: int)
    requires
        0 <= b <= t.len(),
        forall|j: int| b <= j < t.len() ==> unicode_whitespace(t[j]),
        b == 0 || !unicode_whitespace(t[b - 1]),
    ensures
        trailing_ws_start(t) == b,
    decreases t.len(),
{
    if t.len() == 0 {
    } else if !unicode_whitespace(t.last()) {
        assert(b == t.len());
    } else {
        assert(b < t.len());
        assert forall|j: int| b <= j < t.drop_last().len() implies unicode_whitespace(
            t.drop_last()[j],
        ) by {
            assert(t.drop_last()[j] == t[j]);
        }
        if b > 0 {
            assert(t.drop_last()[b - 1] == t[b - 1]);
        }
        lemma_trailing_ws_char(t.drop_last(), b);
    }
}

/// Remove leading and trailing Unicode whitespace from `s`.
pub fn trim_str(s: &str) -> (r: String)
    ensures
        r@ == trim_of(s@),
{
    let slen = s.unicode_len();
    let a = skip_ws_from(s, 0);
    let mut b: usize = slen;
    while b > a && is_ws(s.get_char(b - 1))
        invariant
            slen == s@.len() <= usize::MAX,
            a <= b <= slen,
            forall|j: int| b <= j < slen ==> unicode_whitespace(s@[j]),
        decreases b,
    {
        b -= 1;
    }
    proof {
        lemma_leading_ws_char(s@, a as int);
        let t = s@.skip(a as int);
        assert forall|j: int| b - a <= j < t.len() implies unicode_whitespace(t[j]) by {
            assert(t[j] == s@[a + j]);
        }
        if b > a {
            assert(t[b - a - 1] == s@[b - 1]);
        }
        lemma_trailing_ws_char(t, b - a);
        assert(s@.subrange(a as int, b as int) =~= t.take(b - a));
    }
    String::from_str(s.substring_char(a, b))
}

} // verus!

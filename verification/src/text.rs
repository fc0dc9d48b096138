//! Character-level text model shared by the host, path and cookie logic.
//!
//! Strings are modelled by their view, a `Seq<char>`. The searches below are
//! stated once over a character predicate and reused by every parser.
use vstd::prelude::*;

verus! {

// ---------------------------------------------------------------------------
// Character classes
// ---------------------------------------------------------------------------

/// `char::is_whitespace`: the characters with the Unicode `White_Space` property.
pub open spec fn is_ws(c: char) -> bool {
    ||| c == '\t'
    ||| c == '\n'
    ||| c == '\u{0B}'
    ||| c == '\u{0C}'
    ||| c == '\r'
    ||| c == ' '
    ||| c == '\u{85}'
    ||| c == '\u{A0}'
    ||| c == '\u{1680}'
    ||| ('\u{2000}' <= c && c <= '\u{200A}')
    ||| c == '\u{2028}'
    ||| c == '\u{2029}'
    ||| c == '\u{202F}'
    ||| c == '\u{205F}'
    ||| c == '\u{3000}'
}

/// The predicate "is one of `stops`".
pub open spec fn one_of(stops: Seq<char>) -> spec_fn(char) -> bool {
    |c: char| stops.contains(c)
}

/// The predicate "is not whitespace".
pub open spec fn not_ws() -> spec_fn(char) -> bool {
    |c: char| !is_ws(c)
}

/// The predicate "differs from `x`".
pub open spec fn other_than(x: char) -> spec_fn(char) -> bool {
    |c: char| c != x
}

// ---------------------------------------------------------------------------
// Searches
// ---------------------------------------------------------------------------

/// Index of the first character of `s` satisfying `p`, or `s.len()` when none does.
pub open spec fn first_where(s: Seq<char>, p: spec_fn(char) -> bool) -> nat
    decreases s.len(),
{
    if s.len() == 0 {
        0
    } else if p(s[0]) {
        0
    } else {
        1 + first_where(s.drop_first(), p)
    }
}

/// Index of the last character of `s` satisfying `p`, or `-1` when none does.
pub open spec fn last_where(s: Seq<char>, p: spec_fn(char) -> bool) -> int
    decreases s.len(),
{
    if s.len() == 0 {
        -1
    } else if p(s.last()) {
        s.len() - 1
    } else {
        last_where(s.drop_last(), p)
    }
}

/// Index of the first occurrence of the nonempty pattern `pat` in `s`, or `s.len()`.
pub open spec fn first_match(s: Seq<char>, pat: Seq<char>) -> nat
    decreases s.len(),
{
    if s.len() < pat.len() || s.len() == 0 {
        s.len()
    } else if s.take(pat.len() as int) == pat {
        0
    } else {
        1 + first_match(s.drop_first(), pat)
    }
}

/// `str::trim`.
pub open spec fn trim(s: Seq<char>) -> Seq<char> {
    let lo = first_where(s, not_ws()) as int;
    let hi = last_where(s, not_ws()) + 1;
    if lo < hi {
        s.subrange(lo, hi)
    } else {
        Seq::empty()
    }
}

/// The first piece of `s.split(stops)`: everything before the first of `stops`.
pub open spec fn before_any(s: Seq<char>, stops: Seq<char>) -> Seq<char> {
    s.take(first_where(s, one_of(stops)) as int)
}

/// The first piece of `s.split(c)`: everything before the first `c`.
pub open spec fn before(s: Seq<char>, c: char) -> Seq<char> {
    before_any(s, seq![c])
}

/// The first piece of `s.rsplit(c)`: everything after the last `c`.
pub open spec fn after_last(s: Seq<char>, c: char) -> Seq<char> {
    s.skip(last_where(s, one_of(seq![c])) + 1)
}

/// `s.split(c)` collected.
pub open spec fn split_on(s: Seq<char>, c: char) -> Seq<Seq<char>>
    decreases s.len(),
{
    let k = first_where(s, one_of(seq![c])) as int;
    if k >= s.len() {
        seq![s]
    } else {
        seq![s.take(k)] + split_on(s.skip(k + 1), c)
    }
}

/// `parts.join(sep)`.
pub open spec fn join(parts: Seq<Seq<char>>, sep: Seq<char>) -> Seq<char>
    decreases parts.len(),
{
    if parts.len() == 0 {
        Seq::empty()
    } else if parts.len() == 1 {
        parts[0]
    } else {
        parts[0] + sep + join(parts.drop_first(), sep)
    }
}

/// `s.starts_with(p)`.
pub open spec fn starts_with(s: Seq<char>, p: Seq<char>) -> bool {
    p.len() <= s.len() && s.take(p.len() as int) == p
}

/// `s.ends_with(p)`.
pub open spec fn ends_with(s: Seq<char>, p: Seq<char>) -> bool {
    p.len() <= s.len() && s.skip(s.len() - p.len()) == p
}

/// `s.strip_prefix(p)`.
pub open spec fn strip_prefix(s: Seq<char>, p: Seq<char>) -> Option<Seq<char>> {
    if starts_with(s, p) {
        Some(s.skip(p.len() as int))
    } else {
        None
    }
}

// ---------------------------------------------------------------------------
// Facts about the searches
// ---------------------------------------------------------------------------

/// `first_where` is the unique index before which no character satisfies `p`
/// and at which (if in range) one does.
pub proof fn lemma_first_where_is(s: Seq<char>, p: spec_fn(char) -> bool, k: int)
    requires
        0 <= k <= s.len(),
        forall|j: int| 0 <= j < k ==> !p(#[trigger] s[j]),
        k < s.len() ==> p(s[k]),
    ensures
        first_where(s, p) == k,
    decreases k,
{
    if k > 0 {
        assert(!p(s[0]));
        assert forall|j: int| 0 <= j < k - 1 implies !p(#[trigger] s.drop_first()[j]) by {
            assert(s.drop_first()[j] == s[j + 1]);
        }
        lemma_first_where_is(s.drop_first(), p, k - 1);
    }
}

/// The defining properties of `first_where`.
pub proof fn lemma_first_where_props(s: Seq<char>, p: spec_fn(char) -> bool)
    ensures
        first_where(s, p) <= s.len(),
        forall|j: int| 0 <= j < first_where(s, p) ==> !p(#[trigger] s[j]),
        first_where(s, p) < s.len() ==> p(s[first_where(s, p) as int]),
    decreases s.len(),
{
    if s.len() > 0 && !p(s[0]) {
        lemma_first_where_props(s.drop_first(), p);
        assert forall|j: int| 0 <= j < first_where(s, p) implies !p(#[trigger] s[j]) by {
            if j > 0 {
                assert(s[j] == s.drop_first()[j - 1]);
            }
        }
    }
}

/// `last_where` is the unique index after which no character satisfies `p`
/// and at which (if not `-1`) one does.
pub proof fn lemma_last_where_is(s: Seq<char>, p: spec_fn(char) -> bool, k: int)
    requires
        -1 <= k < s.len(),
        forall|j: int| k < j < s.len() ==> !p(#[trigger] s[j]),
        k >= 0 ==> p(s[k]),
    ensures
        last_where(s, p) == k,
    decreases s.len(),
{
    if s.len() > 0 && k < s.len() - 1 {
        assert(!p(s[s.len() - 1]));
        assert forall|j: int| k < j < s.drop_last().len() implies !p(#[trigger] s.drop_last()[j]) by {
            assert(s.drop_last()[j] == s[j]);
        }
        if k >= 0 {
            assert(s.drop_last()[k] == s[k]);
        }
        lemma_last_where_is(s.drop_last(), p, k);
    }
}

/// The defining properties of `last_where`.
pub proof fn lemma_last_where_props(s: Seq<char>, p: spec_fn(char) -> bool)
    ensures
        -1 <= last_where(s, p) < s.len(),
        forall|j: int| last_where(s, p) < j < s.len() ==> !p(#[trigger] s[j]),
        last_where(s, p) >= 0 ==> p(s[last_where(s, p)]),
    decreases s.len(),
{
    if s.len() > 0 && !p(s.last()) {
        lemma_last_where_props(s.drop_last(), p);
        assert forall|j: int| last_where(s, p) < j < s.len() implies !p(#[trigger] s[j]) by {
            if j < s.len() - 1 {
                assert(s[j] == s.drop_last()[j]);
            }
        }
        if last_where(s, p) >= 0 {
            assert(s[last_where(s, p)] == s.drop_last()[last_where(s, p)]);
        }
    }
}

/// `first_match` is the unique first index at which `pat` occurs.
pub proof fn lemma_first_match_is(s: Seq<char>, pat: Seq<char>, k: int)
    requires
        pat.len() > 0,
        0 <= k <= s.len(),
        forall|j: int| 0 <= j < k && j + pat.len() <= s.len() ==> #[trigger] s.subrange(j, j + pat.len()) != pat,
        k < s.len() ==> k + pat.len() <= s.len() && s.subrange(k, k + pat.len()) == pat,
        k == s.len() ==> forall|j: int| 0 <= j && j + pat.len() <= s.len() ==> #[trigger] s.subrange(j, j + pat.len()) != pat,
    ensures
        first_match(s, pat) == k,
    decreases s.len(),
{
    if s.len() < pat.len() || s.len() == 0 {
    } else if s.take(pat.len() as int) == pat {
        assert(s.subrange(0, pat.len() as int) == pat);
        if k > 0 {
            assert(s.subrange(0, 0 + pat.len() as int) == pat);
            assert(false);
        }
        if k == s.len() {
            assert(s.subrange(0, 0 + pat.len() as int) == pat);
        }
    } else {
        assert(s.subrange(0, pat.len() as int) =~= s.take(pat.len() as int));
        if k == 0 {
            assert(s.subrange(0, 0 + pat.len() as int) == pat);
        }
        let t = s.drop_first();
        assert forall|j: int| 0 <= j < k - 1 && j + pat.len() <= t.len() implies #[trigger] t.subrange(j, j + pat.len()) != pat by {
            assert(t.subrange(j, j + pat.len()) =~= s.subrange(j + 1, j + 1 + pat.len()));
        }
        if k < s.len() {
            assert(t.subrange(k - 1, k - 1 + pat.len()) =~= s.subrange(k, k + pat.len()));
        } else {
            assert forall|j: int| 0 <= j && j + pat.len() <= t.len() implies #[trigger] t.subrange(j, j + pat.len()) != pat by {
                assert(t.subrange(j, j + pat.len()) =~= s.subrange(j + 1, j + 1 + pat.len()));
            }
        }
        lemma_first_match_is(t, pat, k - 1);
    }
}

/// The defining properties of `first_match`.
pub proof fn lemma_first_match_props(s: Seq<char>, pat: Seq<char>)
    requires
        pat.len() > 0,
    ensures
        first_match(s, pat) <= s.len(),
        first_match(s, pat) < s.len() ==> first_match(s, pat) + pat.len() <= s.len()
            && s.subrange(first_match(s, pat) as int, (first_match(s, pat) + pat.len()) as int) == pat,
    decreases s.len(),
{
    if s.len() < pat.len() || s.len() == 0 {
    } else if s.take(pat.len() as int) == pat {
        assert(s.subrange(0, pat.len() as int) =~= s.take(pat.len() as int));
    } else {
        let t = s.drop_first();
        lemma_first_match_props(t, pat);
        let k = first_match(t, pat);
        if k < t.len() {
            assert(t.subrange(k as int, (k + pat.len()) as int) =~= s.subrange(k + 1int, (k + 1 + pat.len()) as int));
        }
    }
}

/// Splitting always yields at least one piece.
pub proof fn lemma_split_on_nonempty(s: Seq<char>, c: char)
    ensures
        split_on(s, c).len() >= 1,
    decreases s.len(),
{
    let k = first_where(s, one_of(seq![c])) as int;
    if k < s.len() {
        lemma_split_on_nonempty(s.skip(k + 1), c);
    }
}

/// No piece of a split contains the separator.
pub proof fn lemma_split_on_pieces(s: Seq<char>, c: char)
    ensures
        forall|i: int, j: int|
            0 <= i < split_on(s, c).len() && 0 <= j < split_on(s, c)[i].len()
                ==> #[trigger] split_on(s, c)[i][j] != c,
    decreases s.len(),
{
    let p = one_of(seq![c]);
    lemma_first_where_props(s, p);
    let k = first_where(s, p) as int;
    assert forall|j: int| 0 <= j < s.len() && s[j] == c implies p(s[j]) by {
        assert(seq![c][0] == c);
    }
    if k < s.len() {
        lemma_split_on_pieces(s.skip(k + 1), c);
        let rest = split_on(s.skip(k + 1), c);
        assert forall|i: int, j: int|
            0 <= i < split_on(s, c).len() && 0 <= j < split_on(s, c)[i].len()
                implies #[trigger] split_on(s, c)[i][j] != c by {
            if i == 0 {
                assert(split_on(s, c)[0] == s.take(k));
                assert(s.take(k)[j] == s[j]);
            } else {
                assert(split_on(s, c)[i] == rest[i - 1]);
            }
        }
    } else {
        assert forall|i: int, j: int|
            0 <= i < split_on(s, c).len() && 0 <= j < split_on(s, c)[i].len()
                implies #[trigger] split_on(s, c)[i][j] != c by {
            assert(split_on(s, c)[i] == s);
        }
    }
}

/// A text without the separator splits into itself alone.
pub proof fn lemma_split_on_free(x: Seq<char>, c: char)
    requires
        !x.contains(c),
    ensures
        split_on(x, c) == seq![x],
{
    let p = one_of(seq![c]);
    assert(seq![c][0] == c);
    assert forall|j: int| 0 <= j < x.len() implies !p(#[trigger] x[j]) by {
        if p(x[j]) {
            assert(x.contains(x[j]));
        }
    }
    lemma_first_where_is(x, p, x.len() as int);
}

/// Splitting `x`, the separator, then `y` gives the pieces of `x` followed by
/// the pieces of `y`.
pub proof fn lemma_split_on_append(x: Seq<char>, c: char, y: Seq<char>)
    ensures
        split_on(x + seq![c] + y, c) == split_on(x, c) + split_on(y, c),
    decreases x.len(),
{
    let s = x + seq![c] + y;
    let p = one_of(seq![c]);
    assert(seq![c][0] == c);
    lemma_first_where_props(x, p);
    let k = first_where(x, p) as int;
    assert forall|j: int| 0 <= j < k implies !p(#[trigger] s[j]) by {
        assert(s[j] == x[j]);
    }
    if k < x.len() {
        assert(s[k] == x[k]);
        lemma_first_where_is(s, p, k);
        let x2 = x.skip(k + 1);
        assert(s.take(k) =~= x.take(k));
        assert(s.skip(k + 1) =~= x2 + seq![c] + y);
        lemma_split_on_append(x2, c, y);
        assert(split_on(s, c) =~= split_on(x, c) + split_on(y, c));
    } else {
        assert(s[k] == c);
        lemma_first_where_is(s, p, k);
        assert(s.take(k) =~= x);
        assert(s.skip(k + 1) =~= y);
        assert(split_on(s, c) =~= split_on(x, c) + split_on(y, c));
    }
}

/// Joining the pieces of a split with the separator gives back the text.
pub proof fn lemma_join_split_on(s: Seq<char>, c: char)
    ensures
        join(split_on(s, c), seq![c]) == s,
    decreases s.len(),
{
    let p = one_of(seq![c]);
    lemma_first_where_props(s, p);
    let k = first_where(s, p) as int;
    if k < s.len() {
        let rest = split_on(s.skip(k + 1), c);
        lemma_split_on_nonempty(s.skip(k + 1), c);
        lemma_join_split_on(s.skip(k + 1), c);
        let parts = split_on(s, c);
        assert(parts == seq![s.take(k)] + rest);
        assert(parts.len() >= 2);
        assert(parts.drop_first() =~= rest);
        assert(parts[0] == s.take(k));
        assert(seq![c].contains(s[k]));
        assert(s[k] == c);
        assert(s =~= s.take(k) + seq![c] + s.skip(k + 1));
    }
}

/// Joining `a + b` splices the two joins with one separator.
pub proof fn lemma_join_append(a: Seq<Seq<char>>, b: Seq<Seq<char>>, sep: Seq<char>)
    requires
        a.len() >= 1,
        b.len() >= 1,
    ensures
        join(a + b, sep) == join(a, sep) + sep + join(b, sep),
    decreases a.len(),
{
    if a.len() == 1 {
        assert((a + b).drop_first() =~= b);
        assert((a + b)[0] == a[0]);
    } else {
        lemma_join_append(a.drop_first(), b, sep);
        assert((a + b).drop_first() =~= a.drop_first() + b);
        assert((a + b)[0] == a[0]);
        assert(join(a, sep) == a[0] + sep + join(a.drop_first(), sep));
        assert(join(a + b, sep) == a[0] + sep + join(a.drop_first() + b, sep));
        assert(a[0] + sep + (join(a.drop_first(), sep) + sep + join(b, sep)) =~= a[0] + sep + join(
            a.drop_first(),
            sep,
        ) + sep + join(b, sep));
    }
}

/// Texts that agree, position by position, on a predicate agree on where it
/// first and last holds.
pub proof fn lemma_where_congruent(s: Seq<char>, t: Seq<char>, p: spec_fn(char) -> bool)
    requires
        s.len() == t.len(),
        forall|i: int| 0 <= i < s.len() ==> p(#[trigger] s[i]) == p(t[i]),
    ensures
        first_where(s, p) == first_where(t, p),
        last_where(s, p) == last_where(t, p),
{
    lemma_first_where_props(s, p);
    lemma_last_where_props(s, p);
    let k = first_where(s, p) as int;
    assert forall|j: int| 0 <= j < k implies !p(#[trigger] t[j]) by {
        assert(!p(s[j]));
    }
    if k < s.len() {
        assert(p(s[k]));
    }
    lemma_first_where_is(t, p, k);
    let l = last_where(s, p);
    assert forall|j: int| l < j < t.len() implies !p(#[trigger] t[j]) by {
        assert(!p(s[j]));
    }
    if l >= 0 {
        assert(p(s[l]));
    }
    lemma_last_where_is(t, p, l);
}

/// Every character of `y` occurs in `x`.
pub open spec fn chars_within(y: Seq<char>, x: Seq<char>) -> bool {
    forall|i: int| 0 <= i < y.len() ==> x.contains(#[trigger] y[i])
}

/// A contiguous part of a text holds only characters of the text.
pub proof fn lemma_subrange_within(x: Seq<char>, a: int, b: int)
    requires
        0 <= a <= b <= x.len(),
    ensures
        chars_within(x.subrange(a, b), x),
{
    assert forall|i: int| 0 <= i < x.subrange(a, b).len() implies x.contains(#[trigger] x.subrange(a, b)[i]) by {
        assert(x.subrange(a, b)[i] == x[a + i]);
    }
}

/// `chars_within` is transitive.
pub proof fn lemma_within_trans(z: Seq<char>, y: Seq<char>, x: Seq<char>)
    requires
        chars_within(z, y),
        chars_within(y, x),
    ensures
        chars_within(z, x),
{
    assert forall|i: int| 0 <= i < z.len() implies x.contains(#[trigger] z[i]) by {
        assert(y.contains(z[i]));
        let j = choose|j: int| 0 <= j < y.len() && y[j] == z[i];
        assert(x.contains(y[j]));
    }
}

/// A trimmed text is part of the text, and starts and ends with a
/// non-whitespace character when it is not empty.
pub proof fn lemma_trim_props(x: Seq<char>)
    ensures
        chars_within(trim(x), x),
        trim(x).len() > 0 ==> !is_ws(trim(x)[0]) && !is_ws(trim(x).last()),
{
    lemma_first_where_props(x, not_ws());
    lemma_last_where_props(x, not_ws());
    let lo = first_where(x, not_ws()) as int;
    let hi = last_where(x, not_ws()) + 1;
    if lo < hi {
        lemma_subrange_within(x, lo, hi);
        assert(trim(x)[0] == x[lo]);
        assert(trim(x).last() == x[hi - 1]);
        assert(not_ws()(x[lo]));
        assert(not_ws()(x[hi - 1]));
    }
}

/// The text before the first of `stops` holds none of them.
pub proof fn lemma_before_any_props(x: Seq<char>, stops: Seq<char>)
    ensures
        chars_within(before_any(x, stops), x),
        forall|i: int| 0 <= i < before_any(x, stops).len() ==> !stops.contains(#[trigger] before_any(x, stops)[i]),
{
    lemma_first_where_props(x, one_of(stops));
    let k = first_where(x, one_of(stops)) as int;
    lemma_subrange_within(x, 0, k);
    assert(before_any(x, stops) =~= x.subrange(0, k));
    assert forall|i: int| 0 <= i < before_any(x, stops).len() implies !stops.contains(#[trigger] before_any(x, stops)[i]) by {
        assert(before_any(x, stops)[i] == x[i]);
        assert(!one_of(stops)(x[i]));
    }
}

/// The text after the last `c` holds no `c`.
pub proof fn lemma_after_last_props(x: Seq<char>, c: char)
    ensures
        chars_within(after_last(x, c), x),
        forall|i: int| 0 <= i < after_last(x, c).len() ==> #[trigger] after_last(x, c)[i] != c,
{
    lemma_last_where_props(x, one_of(seq![c]));
    let k = last_where(x, one_of(seq![c])) + 1;
    lemma_subrange_within(x, k, x.len() as int);
    assert(after_last(x, c) =~= x.subrange(k, x.len() as int));
    assert forall|i: int| 0 <= i < after_last(x, c).len() implies #[trigger] after_last(x, c)[i] != c by {
        assert(after_last(x, c)[i] == x[k + i]);
        assert(!one_of(seq![c])(x[k + i]));
        assert(seq![c].contains(c)) by {
            assert(seq![c][0] == c);
        }
    }
}

// ---------------------------------------------------------------------------
// Executable helpers
// ---------------------------------------------------------------------------

/// Appends one character to a `String`.
///
/// Trusted: calls `String::push`, which, as std documents, appends the given
/// `char` to the end of the string.
#[verifier::external_body]
pub(crate) fn push_char(s: &mut String, c: char)
    ensures
        final(s)@ == old(s)@.push(c),
{
    s.push(c);
}

/// The characters of a string, in order.
pub(crate) fn chars_of(s: &str) -> (r: Vec<char>)
    ensures
        r@ == s@,
{
    let mut r: Vec<char> = Vec::new();
    for c in it: s.chars()
        invariant
            r@ == it.seq().take(it.index() as int),
            it.seq() == s@,
    {
        r.push(c);
    }
    r
}

/// A `String` holding exactly the given characters.
pub(crate) fn string_of(v: &[char]) -> (r: String)
    ensures
        r@ == v@,
{
    let mut r = String::new();
    let mut i: usize = 0;
    while i < v.len()
        invariant
            i <= v.len(),
            r@ == v@.take(i as int),
        decreases v.len() - i,
    {
        push_char(&mut r, v[i]);
        i = i + 1;
        assert(r@ =~= v@.take(i as int));
    }
    assert(v@.take(v.len() as int) =~= v@);
    r
}

/// Whether `c` is in `stops`.
pub(crate) fn is_one_of(stops: &[char], c: char) -> (b: bool)
    ensures
        b == one_of(stops@)(c),
{
    let mut i: usize = 0;
    while i < stops.len()
        invariant
            i <= stops.len(),
            forall|j: int| 0 <= j < i ==> stops@[j] != c,
        decreases stops.len() - i,
    {
        if stops[i] == c {
            assert(stops@.contains(c));
            return true;
        }
        i = i + 1;
    }
    false
}

/// `char::is_whitespace`.
pub(crate) fn char_is_ws(c: char) -> (b: bool)
    ensures
        b == is_ws(c),
{
    c == '\t' || c == '\n' || c == '\u{0B}' || c == '\u{0C}' || c == '\r' || c == ' '
        || c == '\u{85}' || c == '\u{A0}' || c == '\u{1680}' || ('\u{2000}' <= c && c
        <= '\u{200A}') || c == '\u{2028}' || c == '\u{2029}' || c == '\u{202F}' || c
        == '\u{205F}' || c == '\u{3000}'
}

/// A class of characters that a search stops at.
pub enum Stop<'a> {
    /// Any of the listed characters.
    OneOf(&'a [char]),
    /// Any character but whitespace.
    NotWhitespace,
    /// Any character but the given one.
    OtherThan(char),
}

/// The predicate a [`Stop`] stands for.
pub open spec fn stop_pred(s: Stop) -> spec_fn(char) -> bool {
    match s {
        Stop::OneOf(stops) => one_of(stops@),
        Stop::NotWhitespace => not_ws(),
        Stop::OtherThan(x) => other_than(x),
    }
}

pub(crate) fn stops_at(stop: &Stop, c: char) -> (b: bool)
    ensures
        b == stop_pred(*stop)(c),
{
    match stop {
        Stop::OneOf(stops) => is_one_of(stops, c),
        Stop::NotWhitespace => !char_is_ws(c),
        Stop::OtherThan(x) => c != *x,
    }
}

/// `lo` plus the index of the first character of `v[lo..hi]` at which `stop` stops.
pub(crate) fn find_first(v: &[char], lo: usize, hi: usize, stop: &Stop) -> (r: usize)
    requires
        lo <= hi <= v@.len(),
    ensures
        r == lo + first_where(v@.subrange(lo as int, hi as int), stop_pred(*stop)),
        lo <= r <= hi,
{
    let ghost s = v@.subrange(lo as int, hi as int);
    let ghost p = stop_pred(*stop);
    let mut i = lo;
    while i < hi
        invariant
            lo <= i <= hi <= v@.len(),
            s == v@.subrange(lo as int, hi as int),
            p == stop_pred(*stop),
            forall|j: int| 0 <= j < i - lo ==> !p(#[trigger] s[j]),
        decreases hi - i,
    {
        if stops_at(stop, v[i]) {
            assert(s[i - lo] == v@[i as int]);
            proof {
                lemma_first_where_is(s, p, i - lo);
            }
            return i;
        }
        assert(s[i - lo] == v@[i as int]);
        i = i + 1;
    }
    proof {
        lemma_first_where_is(s, p, i - lo);
    }
    i
}

/// One past the index of the last character of `v[lo..hi]` at which `stop` stops
/// (so `lo` when there is none).
pub(crate) fn find_last_end(v: &[char], lo: usize, hi: usize, stop: &Stop) -> (r: usize)
    requires
        lo <= hi <= v@.len(),
    ensures
        r == lo + last_where(v@.subrange(lo as int, hi as int), stop_pred(*stop)) + 1,
        lo <= r <= hi,
{
    let ghost s = v@.subrange(lo as int, hi as int);
    let ghost p = stop_pred(*stop);
    let mut i = hi;
    while i > lo
        invariant
            lo <= i <= hi <= v@.len(),
            s == v@.subrange(lo as int, hi as int),
            p == stop_pred(*stop),
            forall|j: int| i - lo <= j < s.len() ==> !p(#[trigger] s[j]),
        decreases i - lo,
    {
        if stops_at(stop, v[i - 1]) {
            assert(s[i - 1 - lo] == v@[i - 1]);
            proof {
                lemma_last_where_is(s, p, i - 1 - lo);
            }
            return i;
        }
        assert(s[i - 1 - lo] == v@[i - 1]);
        i = i - 1;
    }
    proof {
        lemma_last_where_is(s, p, -1);
    }
    i
}

/// Whether `v[at..at + pat.len()]` equals `pat`.
pub(crate) fn matches_at(v: &[char], at: usize, pat: &[char]) -> (b: bool)
    requires
        at + pat@.len() <= v@.len(),
    ensures
        b == (v@.subrange(at as int, at + pat@.len()) == pat@),
{
    let vl = v.len();
    let mut i: usize = 0;
    while i < pat.len()
        invariant
            vl == v@.len(),
            at + pat@.len() <= v@.len(),
            i <= pat.len(),
            forall|j: int| 0 <= j < i ==> v@[at + j] == pat@[j],
        decreases pat.len() - i,
    {
        assert(at + i < v@.len());
        if v[at + i] != pat[i] {
            assert(v@.subrange(at as int, at + pat@.len())[i as int] != pat@[i as int]);
            return false;
        }
        i = i + 1;
    }
    assert(v@.subrange(at as int, at + pat@.len()) =~= pat@);
    true
}

/// `lo` plus the index of the first occurrence of the nonempty `pat` in `v[lo..hi]`,
/// or `hi` when it does not occur.
pub(crate) fn find_pattern(v: &[char], lo: usize, hi: usize, pat: &[char]) -> (r: usize)
    requires
        lo <= hi <= v@.len(),
        pat@.len() > 0,
    ensures
        r == lo + first_match(v@.subrange(lo as int, hi as int), pat@),
        lo <= r <= hi,
{
    let ghost s = v@.subrange(lo as int, hi as int);
    let n = pat.len();
    let mut i = lo;
    while n <= hi - i
        invariant
            lo <= i <= hi <= v@.len(),
            n == pat@.len(),
            n > 0,
            s == v@.subrange(lo as int, hi as int),
            forall|j: int| 0 <= j < i - lo && j + n <= s.len() ==> #[trigger] s.subrange(j, j + n) != pat@,
        decreases hi - i,
    {
        assert(s.subrange(i - lo, i - lo + n) =~= v@.subrange(i as int, i + n));
        if matches_at(v, i, pat) {
            proof {
                lemma_first_match_is(s, pat@, i - lo);
            }
            return i;
        }
        i = i + 1;
    }
    proof {
        lemma_first_match_is(s, pat@, s.len() as int);
    }
    hi
}

/// The pieces of `s.split(sep)`, as slices of `s`.
pub(crate) fn split_str<'a>(s: &'a str, sep: char) -> (r: Vec<&'a str>)
    ensures
        r@.len() == split_on(s@, sep).len(),
        forall|i: int| 0 <= i < r@.len() ==> (#[trigger] r@[i])@ == split_on(s@, sep)[i],
{
    let v = chars_of(s);
    let stops = [sep];
    let stop = Stop::OneOf(&stops);
    assert(stops@ =~= seq![sep]);
    let mut r: Vec<&'a str> = Vec::new();
    let mut lo: usize = 0;
    let mut done = false;
    assert(v@.subrange(0, v@.len() as int) =~= v@);
    while !done
        invariant
            lo <= v@.len(),
            v@ == s@,
            stop_pred(stop) == one_of(seq![sep]),
            !done ==> split_on(s@, sep) =~= r@.map_values(|x: &str| x@) + split_on(
                v@.subrange(lo as int, v@.len() as int),
                sep,
            ),
            done ==> split_on(s@, sep) =~= r@.map_values(|x: &str| x@),
        decreases v@.len() - lo + (if done { 0int } else { 1int }),
    {
        let ghost rest = v@.subrange(lo as int, v@.len() as int);
        let k = find_first(&v, lo, v.len(), &stop);
        let piece = s.substring_char(lo, k);
        let ghost old_r = r@;
        r.push(piece);
        assert(r@.map_values(|x: &str| x@) =~= old_r.map_values(|x: &str| x@).push(piece@));
        if k == v.len() {
            assert(split_on(rest, sep) == seq![rest]);
            assert(piece@ =~= rest);
            done = true;
        } else {
            assert(rest.take(k - lo) =~= piece@);
            assert(rest.skip(k - lo + 1) =~= v@.subrange(k + 1, v@.len() as int));
            assert(split_on(rest, sep) == seq![rest.take(k - lo)] + split_on(rest.skip(k - lo + 1), sep));
            lo = k + 1;
        }
    }
    assert forall|i: int| 0 <= i < r@.len() implies (#[trigger] r@[i])@ == split_on(s@, sep)[i] by {
        assert(r@.map_values(|x: &str| x@)[i] == r@[i]@);
    }
    r
}

/// `parts.join(sep)` for a one-character separator.
pub(crate) fn join_strs(parts: &[&str], sep: char) -> (r: String)
    ensures
        r@ == join(parts@.map_values(|x: &str| x@), seq![sep]),
{
    let ghost views = parts@.map_values(|x: &str| x@);
    if parts.len() == 0 {
        return String::new();
    }
    let n = parts.len();
    let mut r = String::new();
    let mut i = n;
    // Build from the back: r holds the join of parts[i..].
    r.append(parts[n - 1]);
    i = n - 1;
    assert(views.subrange(n - 1, n as int) =~= seq![views[n - 1]]);
    while i > 0
        invariant
            0 <= i < n == parts@.len(),
            views == parts@.map_values(|x: &str| x@),
            r@ == join(views.subrange(i as int, n as int), seq![sep]),
        decreases i,
    {
        let mut t = parts[i - 1].to_owned();
        push_char(&mut t, sep);
        t.append(r.as_str());
        let ghost tail = views.subrange(i as int, n as int);
        let ghost whole = views.subrange(i - 1, n as int);
        assert(whole.drop_first() =~= tail);
        assert(whole[0] == parts@[i - 1]@);
        assert(t@ =~= whole[0] + seq![sep] + join(tail, seq![sep]));
        r = t;
        i = i - 1;
    }
    assert(views.subrange(0, n as int) =~= views);
    r
}

/// The first `count` slices of a list.
pub(crate) fn prefix_strs<'a>(parts: &[&'a str], count: usize) -> (r: Vec<&'a str>)
    requires
        count <= parts@.len(),
    ensures
        r@ == parts@.take(count as int),
{
    let mut r: Vec<&'a str> = Vec::new();
    let mut j: usize = 0;
    while j < count
        invariant
            count <= parts@.len(),
            j <= count,
            r@ =~= parts@.take(j as int),
        decreases count - j,
    {
        r.push(parts[j]);
        j = j + 1;
        assert(r@ =~= parts@.take(j as int));
    }
    r
}

/// `s.trim()`.
pub(crate) fn trim_str<'a>(s: &'a str) -> (r: &'a str)
    ensures
        r@ == trim(s@),
{
    let v = chars_of(s);
    let n = v.len();
    assert(v@.subrange(0, n as int) =~= v@);
    let lo = find_first(&v, 0, n, &Stop::NotWhitespace);
    let hi = find_last_end(&v, 0, n, &Stop::NotWhitespace);
    if lo < hi {
        s.substring_char(lo, hi)
    } else {
        s.substring_char(0, 0)
    }
}

/// `s.starts_with(p)`.
pub(crate) fn str_starts_with(s: &str, p: &str) -> (r: bool)
    ensures
        r == starts_with(s@, p@),
{
    let vs = chars_of(s);
    let vp = chars_of(p);
    if vp.len() > vs.len() {
        return false;
    }
    let r = matches_at(&vs, 0, &vp);
    assert(vs@.subrange(0, vp@.len() as int) =~= vs@.take(vp@.len() as int));
    r
}

/// `s.ends_with(p)`.
pub(crate) fn str_ends_with(s: &str, p: &str) -> (r: bool)
    ensures
        r == ends_with(s@, p@),
{
    let vs = chars_of(s);
    let vp = chars_of(p);
    if vp.len() > vs.len() {
        return false;
    }
    let at = vs.len() - vp.len();
    let r = matches_at(&vs, at, &vp);
    assert(vs@.subrange(at as int, at + vp@.len()) =~= vs@.skip(vs@.len() - vp@.len()));
    r
}

/// Whether two strings hold the same characters.
pub(crate) fn str_eq(a: &str, b: &str) -> (r: bool)
    ensures
        r == (a@ == b@),
{
    let va = chars_of(a);
    let vb = chars_of(b);
    if va.len() != vb.len() {
        return false;
    }
    let res = matches_at(&va, 0, &vb);
    assert(va@.subrange(0, vb@.len() as int) =~= va@);
    res
}

} // verus!

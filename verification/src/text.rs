//! Character-level text helpers shared by the parser and the serializer:
//! CSS whitespace, trimming, and prefix tests, each with an exact
//! specification over character sequences.

use vstd::prelude::*;

verus! {

use vstd::string::StrSliceExecFns;

/// Relies on `String::push` from std: appends the given character to the
/// end of the string.
pub assume_specification[ String::push ](s: &mut String, c: char)
    ensures
        final(s)@ == old(s)@.push(c),
;

/// The whitespace characters the tokenizer skips at token edges: space,
/// newline, tab, carriage return and form feed.
pub open spec fn is_css_space(c: char) -> bool {
    c == ' ' || c == '\n' || c == '\t' || c == '\r' || c == '\u{c}'
}

/// Executable test for [`is_css_space`].
pub fn css_space(c: char) -> (r: bool)
    ensures
        r == is_css_space(c),
{
    c == ' ' || c == '\n' || c == '\t' || c == '\r' || c == '\u{c}'
}

/// `s` without its leading CSS whitespace.
pub open spec fn trim_front(s: Seq<char>) -> Seq<char>
    decreases s.len(),
{
    if s.len() > 0 && is_css_space(s[0]) {
        trim_front(s.skip(1))
    } else {
        s
    }
}

/// `s` without its trailing CSS whitespace.
pub open spec fn trim_back(s: Seq<char>) -> Seq<char>
    decreases s.len(),
{
    if s.len() > 0 && is_css_space(s.last()) {
        trim_back(s.drop_last())
    } else {
        s
    }
}

/// `s` without leading and trailing CSS whitespace.
pub open spec fn spec_trim(s: Seq<char>) -> Seq<char> {
    trim_back(trim_front(s))
}

proof fn lemma_trim_front_at(s: Seq<char>, lo: int)
    requires
        0 <= lo <= s.len(),
        forall|j: int| 0 <= j < lo ==> is_css_space(s[j]),
        lo < s.len() ==> !is_css_space(s[lo]),
    ensures
        trim_front(s) == s.skip(lo),
    decreases lo,
{
    if lo == 0 {
        assert(s.skip(0) =~= s);
    } else {
        lemma_trim_front_at(s.skip(1), lo - 1);
        assert(s.skip(1).skip(lo - 1) =~= s.skip(lo));
    }
}

proof fn lemma_trim_back_at(s: Seq<char>, hi: int)
    requires
        0 <= hi <= s.len(),
        forall|j: int| hi <= j < s.len() ==> is_css_space(s[j]),
        hi > 0 ==> !is_css_space(s[hi - 1]),
    ensures
        trim_back(s) == s.take(hi),
    decreases s.len() - hi,
{
    if hi == s.len() {
        assert(s.take(hi) =~= s);
    } else {
        lemma_trim_back_at(s.drop_last(), hi);
        assert(s.drop_last().take(hi) =~= s.take(hi));
    }
}

/// If everything before `lo` and everything from `hi` on is whitespace, and
/// the edges at `lo` and `hi - 1` are not, then trimming yields exactly the
/// middle part.
pub proof fn lemma_trim_range(s: Seq<char>, lo: int, hi: int)
    requires
        0 <= lo <= hi <= s.len(),
        forall|j: int| 0 <= j < lo ==> is_css_space(s[j]),
        forall|j: int| hi <= j < s.len() ==> is_css_space(s[j]),
        lo < s.len() ==> !is_css_space(s[lo]),
        hi > lo ==> !is_css_space(s[hi - 1]),
    ensures
        spec_trim(s) == s.subrange(lo, hi),
{
    lemma_trim_front_at(s, lo);
    let rest = s.skip(lo);
    lemma_trim_back_at(rest, hi - lo);
    assert(rest.take(hi - lo) =~= s.subrange(lo, hi));
}

proof fn lemma_trim_front_len(s: Seq<char>)
    ensures
        trim_front(s).len() <= s.len(),
    decreases s.len(),
{
    if s.len() > 0 && is_css_space(s[0]) {
        lemma_trim_front_len(s.skip(1));
    }
}

proof fn lemma_trim_back_len(s: Seq<char>)
    ensures
        trim_back(s).len() <= s.len(),
    decreases s.len(),
{
    if s.len() > 0 && is_css_space(s.last()) {
        lemma_trim_back_len(s.drop_last());
    }
}

/// A nonempty text unchanged by trimming has non-whitespace edges.
pub proof fn lemma_trim_fixed_edges(t: Seq<char>)
    requires
        spec_trim(t) == t,
        t.len() > 0,
    ensures
        !is_css_space(t[0]),
        !is_css_space(t.last()),
{
    if is_css_space(t[0]) {
        lemma_trim_front_len(t.skip(1));
        lemma_trim_back_len(trim_front(t.skip(1)));
        assert(false);
    }
    if is_css_space(t.last()) {
        assert(trim_front(t) == t);
        lemma_trim_back_len(t.drop_last());
        assert(false);
    }
}

/// Trimming strips surrounding whitespace exactly, leaving an already
/// trimmed middle untouched.
pub proof fn lemma_trim_padded(ws1: Seq<char>, t: Seq<char>, ws2: Seq<char>)
    requires
        forall|j: int| 0 <= j < ws1.len() ==> is_css_space(ws1[j]),
        forall|j: int| 0 <= j < ws2.len() ==> is_css_space(ws2[j]),
        spec_trim(t) == t,
    ensures
        spec_trim(ws1 + t + ws2) == t,
{
    let s = ws1 + t + ws2;
    if t.len() == 0 {
        lemma_trim_range(s, s.len() as int, s.len() as int);
        assert(s.subrange(s.len() as int, s.len() as int) =~= t);
    } else {
        lemma_trim_fixed_edges(t);
        let lo = ws1.len() as int;
        let hi = ws1.len() + t.len();
        assert(s[lo] == t[0]);
        assert(s[hi - 1] == t[t.len() - 1]);
        lemma_trim_range(s, lo, hi as int);
        assert(s.subrange(lo, hi as int) =~= t);
    }
}

/// Returns the text of `s` between character positions `from` and `to`,
/// trimmed of CSS whitespace at both ends.
pub fn trimmed_substring(s: &str, from: usize, to: usize) -> (r: String)
    requires
        from <= to <= s@.len(),
    ensures
        r@ == spec_trim(s@.subrange(from as int, to as int)),
{
    let mut lo: usize = from;
    while lo < to && css_space(s.get_char(lo))
        invariant
            from <= lo <= to <= s@.len(),
            forall|j: int| from <= j < lo ==> is_css_space(s@[j]),
        decreases to - lo,
    {
        lo = lo + 1;
    }
    let mut hi: usize = to;
    while hi > lo && css_space(s.get_char(hi - 1))
        invariant
            from <= lo <= hi <= to <= s@.len(),
            forall|j: int| hi <= j < to ==> is_css_space(s@[j]),
            lo < to ==> !is_css_space(s@[lo as int]),
        decreases hi - lo,
    {
        hi = hi - 1;
    }
    proof {
        let part = s@.subrange(from as int, to as int);
        lemma_trim_range(part, lo - from, hi - from);
        assert(part.subrange(lo - from, hi - from) =~= s@.subrange(lo as int, hi as int));
    }
    let piece = s.substring_char(lo, hi);
    piece.to_owned()
}

/// `p` is a suffix of `s`.
pub open spec fn spec_ends_with(s: Seq<char>, p: Seq<char>) -> bool {
    s.len() >= p.len() && s.skip(s.len() - p.len()) == p
}

/// Executable test for [`spec_ends_with`].
pub fn str_ends_with(s: &str, suffix: &str) -> (r: bool)
    ensures
        r == spec_ends_with(s@, suffix@),
{
    let n = s.unicode_len();
    let m = suffix.unicode_len();
    if n < m {
        return false;
    }
    let mut i: usize = 0;
    while i < m
        invariant
            i <= m <= n,
            n == s@.len(),
            m == suffix@.len(),
            forall|j: int| 0 <= j < i ==> s@[n - m + j] == suffix@[j],
        decreases m - i,
    {
        if s.get_char(n - m + i) != suffix.get_char(i) {
            proof {
                assert(s@.skip(n - m)[i as int] != suffix@[i as int]);
            }
            return false;
        }
        i = i + 1;
    }
    proof {
        assert(s@.skip(n - m) =~= suffix@);
    }
    true
}

/// The parts joined with the given separator character between them.
pub open spec fn join_char(parts: Seq<Seq<char>>, sep: char) -> Seq<char>
    decreases parts.len(),
{
    if parts.len() == 0 {
        Seq::empty()
    } else if parts.len() == 1 {
        parts[0]
    } else {
        parts[0] + seq![sep] + join_char(parts.skip(1), sep)
    }
}

/// Joining one more part appends a separator (unless the join was empty)
/// and the part.
pub proof fn lemma_join_char_snoc(parts: Seq<Seq<char>>, sep: char, last: Seq<char>)
    ensures
        join_char(parts.push(last), sep) == if parts.len() == 0 {
            last
        } else {
            join_char(parts, sep) + seq![sep] + last
        },
    decreases parts.len(),
{
    if parts.len() == 0 {
        assert(parts.push(last)[0] == last);
    } else if parts.len() == 1 {
        assert(parts.push(last)[0] == parts[0]);
        assert(parts.push(last).skip(1) =~= seq![last]);
        assert(join_char(seq![last], sep) == last);
    } else {
        assert(parts.push(last)[0] == parts[0]);
        assert(parts.push(last).skip(1) =~= parts.skip(1).push(last));
        lemma_join_char_snoc(parts.skip(1), sep, last);
        assert((parts[0] + seq![sep] + join_char(parts.skip(1), sep)) + seq![sep] + last =~= parts[0]
            + seq![sep] + (join_char(parts.skip(1), sep) + seq![sep] + last));
    }
}

/// The characters of the `@property` at-rule keyword.
pub open spec fn at_property_prefix() -> Seq<char> {
    seq!['@', 'p', 'r', 'o', 'p', 'e', 'r', 't', 'y']
}

/// `p` is a prefix of `s`.
pub open spec fn spec_starts_with(s: Seq<char>, p: Seq<char>) -> bool {
    s.len() >= p.len() && s.take(p.len() as int) == p
}

/// Executable test for whether a scope name starts with `@property`.
pub fn starts_with_at_property(s: &str) -> (r: bool)
    ensures
        r == spec_starts_with(s@, at_property_prefix()),
{
    let n = s.unicode_len();
    if n < 9 {
        return false;
    }
    let r = s.get_char(0) == '@' && s.get_char(1) == 'p' && s.get_char(2) == 'r' && s.get_char(3)
        == 'o' && s.get_char(4) == 'p' && s.get_char(5) == 'e' && s.get_char(6) == 'r'
        && s.get_char(7) == 't' && s.get_char(8) == 'y';
    proof {
        if r {
            assert(s@.take(9) =~= at_property_prefix());
        } else {
            assert(s@.take(9) != at_property_prefix());
        }
    }
    r
}

} // verus!

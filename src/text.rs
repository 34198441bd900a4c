//! Text building blocks: joining, repeating, whitespace and trimming.
use vstd::prelude::*;

verus! {

/// Whether a character has the Unicode `White_Space` property.
pub uninterp spec fn white_space(c: char) -> bool;

/// Relies on `char::is_whitespace`: true exactly for `White_Space` characters.
#[verifier::external_body]
pub(crate) fn is_white(c: char) -> (r: bool)
    ensures
        r == white_space(c),
{
    c.is_whitespace()
}

/// The parts in order, with `sep` between each two neighbours.
pub open spec fn joined(parts: Seq<Seq<char>>, sep: Seq<char>) -> Seq<char>
    decreases parts.len(),
{
    if parts.len() == 0 {
        Seq::empty()
    } else if parts.len() == 1 {
        parts[0]
    } else {
        joined(parts.drop_last(), sep) + sep + parts.last()
    }
}

/// The text of each string.
pub open spec fn texts(v: Seq<String>) -> Seq<Seq<char>> {
    v.map_values(|s: String| s@)
}

/// Relies on `itertools::join`: each item written as it is, `sep` between
/// neighbours, and the empty string for no items.
#[verifier::external_body]
pub(crate) fn join_all(parts: &Vec<String>, sep: &str) -> (r: String)
    ensures
        r@ == joined(texts(parts@), sep@),
{
    itertools::join(parts, sep)
}

/// `g` written `n` times.
pub open spec fn repeat(g: Seq<char>, n: nat) -> Seq<char>
    decreases n,
{
    if n == 0 {
        Seq::empty()
    } else {
        repeat(g, (n - 1) as nat) + g
    }
}

/// `n` spaces.
pub open spec fn spaces(n: nat) -> Seq<char> {
    repeat(seq![' '], n)
}

/// Appends `g` to `s`, `n` times.
pub fn push_repeat(s: &mut String, g: &str, n: usize)
    ensures
        final(s)@ == old(s)@ + repeat(g@, n as nat),
{
    let mut i: usize = 0;
    while i < n
        invariant
            i <= n,
            s@ == old(s)@ + repeat(g@, i as nat),
        decreases n - i,
    {
        s.append(g);
        i += 1;
        assert(s@ =~= old(s)@ + repeat(g@, i as nat));
    }
}

/// Repeating `a` times and then `b` times is repeating `a + b` times.
pub proof fn lemma_repeat_add(g: Seq<char>, a: nat, b: nat)
    ensures
        repeat(g, a) + repeat(g, b) == repeat(g, a + b),
    decreases b,
{
    if b == 0 {
        assert(repeat(g, a) + repeat(g, 0) =~= repeat(g, a));
    } else {
        lemma_repeat_add(g, a, (b - 1) as nat);
        assert(repeat(g, a) + repeat(g, b) =~= repeat(g, a) + repeat(g, (b - 1) as nat) + g);
    }
}

/// `n` spaces are `n` characters long.
pub proof fn lemma_spaces_len(n: nat)
    ensures
        spaces(n).len() == n,
    decreases n,
{
    if n > 0 {
        lemma_spaces_len((n - 1) as nat);
    }
}

/// Two lists of parts with equally long members join to equally long texts.
pub proof fn lemma_joined_len(a: Seq<Seq<char>>, b: Seq<Seq<char>>, sep: Seq<char>)
    requires
        a.len() == b.len(),
        forall|i: int| 0 <= i < a.len() ==> #[trigger] a[i].len() == b[i].len(),
    ensures
        joined(a, sep).len() == joined(b, sep).len(),
    decreases a.len(),
{
    if a.len() > 1 {
        lemma_joined_len(a.drop_last(), b.drop_last(), sep);
    }
}

/// Drops leading whitespace.
pub open spec fn trim_start(t: Seq<char>) -> Seq<char>
    decreases t.len(),
{
    if t.len() > 0 && white_space(t[0]) {
        trim_start(t.drop_first())
    } else {
        t
    }
}

/// Drops trailing whitespace.
pub open spec fn trim_end(t: Seq<char>) -> Seq<char>
    decreases t.len(),
{
    if t.len() > 0 && white_space(t.last()) {
        trim_end(t.drop_last())
    } else {
        t
    }
}

/// Drops leading and trailing whitespace.
pub open spec fn trimmed(t: Seq<char>) -> Seq<char> {
    trim_end(trim_start(t))
}

/// The characters of `s` from `from` up to `end`, without leading or
/// trailing whitespace.
pub fn trim_range(s: &str, from: usize, end: usize) -> (r: String)
    requires
        from <= end <= s@.len(),
    ensures
        r@ == trimmed(s@.subrange(from as int, end as int)),
{
    let mut a: usize = from;
    while a < end && is_white(s.get_char(a))
        invariant
            from <= a <= end <= s@.len(),
            trim_start(s@.subrange(from as int, end as int)) == trim_start(
                s@.subrange(a as int, end as int),
            ),
        decreases end - a,
    {
        assert(s@.subrange(a as int, end as int).drop_first() =~= s@.subrange(
            a + 1,
            end as int,
        ));
        a += 1;
    }
    assert(trim_start(s@.subrange(a as int, end as int)) == s@.subrange(a as int, end as int));
    let mut b: usize = end;
    while b > a && is_white(s.get_char(b - 1))
        invariant
            a <= b <= end <= s@.len(),
            trim_end(s@.subrange(a as int, end as int)) == trim_end(
                s@.subrange(a as int, b as int),
            ),
        decreases b - a,
    {
        assert(s@.subrange(a as int, b as int).drop_last() =~= s@.subrange(
            a as int,
            b - 1,
        ));
        b -= 1;
    }
    String::from_str(s.substring_char(a, b))
}

/// Trimming never lengthens a text.
pub proof fn lemma_trimmed_len(t: Seq<char>)
    ensures
        trimmed(t).len() <= t.len(),
{
    lemma_trim_start_len(t);
    lemma_trim_end_len(trim_start(t));
}

/// Dropping leading whitespace never lengthens a text.
pub proof fn lemma_trim_start_len(t: Seq<char>)
    ensures
        trim_start(t).len() <= t.len(),
    decreases t.len(),
{
    if t.len() > 0 && white_space(t[0]) {
        lemma_trim_start_len(t.drop_first());
    }
}

/// Dropping trailing whitespace never lengthens a text.
pub proof fn lemma_trim_end_len(t: Seq<char>)
    ensures
        trim_end(t).len() <= t.len(),
    decreases t.len(),
{
    if t.len() > 0 && white_space(t.last()) {
        lemma_trim_end_len(t.drop_last());
    }
}

/// The characters of `t` that are not whitespace, in order.
pub open spec fn visible(t: Seq<char>) -> Seq<char>
    decreases t.len(),
{
    if t.len() == 0 {
        Seq::empty()
    } else if white_space(t.last()) {
        visible(t.drop_last())
    } else {
        visible(t.drop_last()).push(t.last())
    }
}

/// The lines written one after the other.
pub open spec fn flatten(lines: Seq<Seq<char>>) -> Seq<char>
    decreases lines.len(),
{
    if lines.len() == 0 {
        Seq::empty()
    } else {
        lines[0] + flatten(lines.drop_first())
    }
}

/// The visible characters of two texts side by side are those of each.
pub proof fn lemma_visible_add(a: Seq<char>, b: Seq<char>)
    ensures
        visible(a + b) == visible(a) + visible(b),
    decreases b.len(),
{
    if b.len() == 0 {
        assert(a + b =~= a);
        assert(visible(a) + visible(b) =~= visible(a));
    } else {
        lemma_visible_add(a, b.drop_last());
        assert((a + b).drop_last() =~= a + b.drop_last());
        assert((a + b).last() == b.last());
        if !white_space(b.last()) {
            assert(visible(a) + visible(b.drop_last()).push(b.last()) =~= (visible(a)
                + visible(b.drop_last())).push(b.last()));
        }
    }
}

/// Trimming keeps every visible character.
pub proof fn lemma_visible_trimmed(t: Seq<char>)
    ensures
        visible(trimmed(t)) == visible(t),
{
    lemma_visible_trim_start(t);
    lemma_visible_trim_end(trim_start(t));
}

/// Dropping leading whitespace keeps every visible character.
pub proof fn lemma_visible_trim_start(t: Seq<char>)
    ensures
        visible(trim_start(t)) == visible(t),
    decreases t.len(),
{
    if t.len() > 0 && white_space(t[0]) {
        lemma_visible_trim_start(t.drop_first());
        assert(t =~= seq![t[0]] + t.drop_first());
        lemma_visible_add(seq![t[0]], t.drop_first());
        assert(seq![t[0]].drop_last() =~= Seq::<char>::empty());
        assert(seq![t[0]].last() == t[0]);
        assert(visible(Seq::<char>::empty()) == Seq::<char>::empty());
        assert(visible(seq![t[0]]) =~= Seq::<char>::empty());
        assert(visible(t) =~= visible(t.drop_first()));
    }
}

/// Dropping trailing whitespace keeps every visible character.
pub proof fn lemma_visible_trim_end(t: Seq<char>)
    ensures
        visible(trim_end(t)) == visible(t),
    decreases t.len(),
{
    if t.len() > 0 && white_space(t.last()) {
        lemma_visible_trim_end(t.drop_last());
    }
}

} // verus!

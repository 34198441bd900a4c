//! Greedy, word-aware wrapping of one cell's text into a column width.
use vstd::prelude::*;
use crate::text::{
    flatten, lemma_trimmed_len, lemma_visible_add, lemma_visible_trimmed, texts, trim_range, trimmed,
    visible,
};

verus! {

/// The position of the last space in `s` from `lo` up to `hi`, if any.
pub open spec fn last_space(s: Seq<char>, lo: int, hi: int) -> Option<int>
    decreases hi - lo,
{
    if hi <= lo {
        None
    } else if s[hi - 1] == ' ' {
        Some(hi - 1)
    } else {
        last_space(s, lo, hi - 1)
    }
}

/// How far the line that starts at `from` reaches: up to and including the
/// last space within `w` characters while more text follows, else `w`
/// characters (a hard break, or the rest of the text).
pub open spec fn step(s: Seq<char>, w: int, from: int) -> int {
    let till = if from + w <= s.len() {
        from + w
    } else {
        s.len() as int
    };
    if till < s.len() {
        match last_space(s, from, till) {
            Some(j) => j - from + 1,
            None => w,
        }
    } else {
        w
    }
}

/// The lines of `s` from position `from` on, wrapped at width `w`: each one
/// the trimmed slice up to where the step reaches, the next line starting
/// there. A zero width gives no lines.
pub open spec fn wrap_from(s: Seq<char>, w: int, from: int) -> Seq<Seq<char>>
    decreases s.len() - from,
    via wrap_from_decreases
{
    if w <= 0 || from < 0 || from >= s.len() {
        Seq::empty()
    } else {
        let i = step(s, w, from);
        let end = if from + i <= s.len() {
            from + i
        } else {
            s.len() as int
        };
        seq![trimmed(s.subrange(from, end))] + wrap_from(s, w, end)
    }
}

#[via_fn]
proof fn wrap_from_decreases(s: Seq<char>, w: int, from: int) {
    if !(w <= 0 || from < 0 || from >= s.len()) {
        lemma_step_range(s, w, from);
    }
}

/// The lines of `s` wrapped at width `w`.
pub open spec fn wrapped(s: Seq<char>, w: int) -> Seq<Seq<char>> {
    wrap_from(s, w, 0)
}

/// A space found lies in the range searched.
pub proof fn lemma_last_space_range(s: Seq<char>, lo: int, hi: int)
    ensures
        last_space(s, lo, hi) matches Some(j) ==> lo <= j < hi && s[j] == ' ',
    decreases hi - lo,
{
    if hi > lo && s[hi - 1] != ' ' {
        lemma_last_space_range(s, lo, hi - 1);
    }
}

/// A step moves on by at least one and at most `w` characters.
pub proof fn lemma_step_range(s: Seq<char>, w: int, from: int)
    requires
        w > 0,
        0 <= from < s.len(),
    ensures
        1 <= step(s, w, from) <= w,
{
    let till = if from + w <= s.len() {
        from + w
    } else {
        s.len() as int
    };
    lemma_last_space_range(s, from, till);
}

/// Splits `cell` into the lines it takes at width `w`.
pub fn split(cell: &str, w: usize) -> (lines: Vec<String>)
    ensures
        texts(lines@) == wrapped(cell@, w as int),
{
    let ghost s = cell@;
    let mut lines: Vec<String> = Vec::new();
    if w == 0 {
        assert(texts(lines@) =~= wrapped(s, 0));
        return lines;
    }
    let max = cell.unicode_len();
    let mut from: usize = 0;
    while from < max
        invariant
            w > 0,
            max == s.len(),
            s == cell@,
            from <= max,
            texts(lines@) + wrap_from(s, w as int, from as int) == wrapped(s, w as int),
        decreases max - from,
    {
        let till: usize = if w <= max - from {
            from + w
        } else {
            max
        };
        let mut next: usize = max;
        let mut end: usize = max;
        if till < max {
            let mut k: usize = till;
            while k > from && cell.get_char(k - 1) != ' '
                invariant
                    from <= k <= till < max,
                    max == s.len(),
                    s == cell@,
                    last_space(s, from as int, till as int) == last_space(
                        s,
                        from as int,
                        k as int,
                    ),
                decreases k - from,
            {
                k -= 1;
            }
            if k > from {
                end = k;
            } else {
                end = till;
            }
            next = end;
        }
        proof {
            lemma_step_range(s, w as int, from as int);
            lemma_last_space_range(s, from as int, till as int);
        }
        let line = trim_range(cell, from, end);
        let ghost before = lines@;
        lines.push(line);
        proof {
            assert(texts(lines@) =~= texts(before) + seq![line@]);
            assert(texts(lines@) + wrap_from(s, w as int, next as int) =~= texts(before)
                + wrap_from(s, w as int, from as int));
        }
        from = next;
    }
    proof {
        assert(wrap_from(s, w as int, from as int) =~= Seq::<Seq<char>>::empty());
        assert(texts(lines@) =~= texts(lines@) + wrap_from(s, w as int, from as int));
    }
    lines
}

/// No line is wider than the width it was wrapped at.
pub proof fn lemma_wrap_from_fits(s: Seq<char>, w: int, from: int)
    ensures
        forall|k: int|
            0 <= k < wrap_from(s, w, from).len() ==> #[trigger] wrap_from(s, w, from)[k].len()
                <= w,
    decreases s.len() - from,
{
    if !(w <= 0 || from < 0 || from >= s.len()) {
        let i = step(s, w, from);
        lemma_step_range(s, w, from);
        let end = if from + i <= s.len() {
            from + i
        } else {
            s.len() as int
        };
        lemma_trimmed_len(s.subrange(from, end));
        lemma_wrap_from_fits(s, w, end);
        let lines = wrap_from(s, w, from);
        assert forall|k: int| 0 <= k < lines.len() implies #[trigger] lines[k].len() <= w by {
            if k > 0 {
                assert(lines[k] == wrap_from(s, w, end)[k - 1]);
            }
        }
    }
}

/// Every line of a wrapped text fits in the width.
pub proof fn lemma_wrapped_fits(s: Seq<char>, w: int)
    ensures
        forall|k: int|
            0 <= k < wrapped(s, w).len() ==> #[trigger] wrapped(s, w)[k].len() <= w,
{
    lemma_wrap_from_fits(s, w, 0);
}

/// A non-empty text no longer than the width stays on one line: the text
/// itself, trimmed.
pub proof fn lemma_wrapped_short(s: Seq<char>, w: int)
    requires
        0 < s.len() <= w,
    ensures
        wrapped(s, w) == seq![trimmed(s)],
{
    assert(s.subrange(0, s.len() as int) =~= s);
    assert(step(s, w, 0) == w);
    assert(wrap_from(s, w, s.len() as int) =~= Seq::<Seq<char>>::empty());
    assert(wrapped(s, w) =~= seq![trimmed(s)]);
}

/// The lines from `from` on hold the visible characters of the text from
/// there on, in order.
pub proof fn lemma_wrap_from_visible(s: Seq<char>, w: int, from: int)
    requires
        w > 0,
        0 <= from <= s.len(),
    ensures
        visible(flatten(wrap_from(s, w, from))) == visible(s.subrange(from, s.len() as int)),
    decreases s.len() - from,
{
    if from == s.len() {
        assert(visible(Seq::<char>::empty()) =~= Seq::<char>::empty());
        assert(s.subrange(from, s.len() as int) =~= Seq::<char>::empty());
    } else {
        let i = step(s, w, from);
        lemma_step_range(s, w, from);
        let end = if from + i <= s.len() {
            from + i
        } else {
            s.len() as int
        };
        let head = s.subrange(from, end);
        let rest = wrap_from(s, w, end);
        lemma_wrap_from_visible(s, w, end);
        let lines = wrap_from(s, w, from);
        assert(lines.drop_first() =~= rest);
        lemma_visible_add(trimmed(head), flatten(rest));
        lemma_visible_trimmed(head);
        lemma_visible_add(head, s.subrange(end, s.len() as int));
        assert(head + s.subrange(end, s.len() as int) =~= s.subrange(from, s.len() as int));
    }
}

/// Wrapping keeps every visible character of the text, in order: only
/// whitespace is dropped at the line breaks.
pub proof fn lemma_wrapped_visible(s: Seq<char>, w: int)
    requires
        w > 0,
    ensures
        visible(flatten(wrapped(s, w))) == visible(s),
{
    lemma_wrap_from_visible(s, w, 0);
    assert(s.subrange(0, s.len() as int) =~= s);
}

} // verus!

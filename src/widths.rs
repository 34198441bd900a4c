//! Natural column widths and their allocation within a total width budget.
use vstd::prelude::*;

verus! {

/// The larger of two widths.
pub open spec fn wider(a: usize, b: usize) -> usize {
    if a >= b {
        a
    } else {
        b
    }
}

/// Column-wise maximum of two width lists; past the end of the shorter one,
/// the longer one supplies the widths unchanged.
pub open spec fn merged(l: Seq<usize>, r: Seq<usize>) -> Seq<usize> {
    Seq::new(
        if l.len() >= r.len() {
            l.len()
        } else {
            r.len()
        },
        |i: int|
            if i < l.len() && i < r.len() {
                wider(l[i], r[i])
            } else if i < l.len() {
                l[i]
            } else {
                r[i]
            },
    )
}

/// Space that `cols` columns need besides their text: `padding` on both sides
/// of each column and one separator glyph between neighbours.
pub open spec fn reserved(cols: int, padding: int) -> int {
    cols * (2 * padding + 1) - 1
}

/// The fair share of `width` for each of `cols` columns, after the reserved
/// space; zero when the reserved space does not fit.
pub open spec fn fair_share(cols: int, width: int, padding: int) -> int {
    if width >= reserved(cols, padding) {
        (width - reserved(cols, padding)) / cols
    } else {
        0
    }
}

/// A column's allocated width: its natural width, capped at the fair share.
pub open spec fn capped(col_width: int, cols: int, width: int, padding: int) -> int {
    let f = fair_share(cols, width, padding);
    if col_width <= f {
        col_width
    } else {
        f
    }
}

/// Merges two width lists: the wider of the two at each shared position,
/// then the tail of the longer list.
pub fn max_merge(left: &[usize], right: &[usize]) -> (res: Vec<usize>)
    ensures
        res@ == merged(left@, right@),
{
    let n: usize = if left.len() >= right.len() {
        left.len()
    } else {
        right.len()
    };
    let mut res: Vec<usize> = Vec::new();
    let mut i: usize = 0;
    while i < n
        invariant
            i <= n,
            n == merged(left@, right@).len(),
            res@ == merged(left@, right@).subrange(0, i as int),
        decreases n - i,
    {
        let v: usize = if i < left.len() && i < right.len() {
            if left[i] >= right[i] {
                left[i]
            } else {
                right[i]
            }
        } else if i < left.len() {
            left[i]
        } else {
            right[i]
        };
        res.push(v);
        i += 1;
        assert(res@ =~= merged(left@, right@).subrange(0, i as int));
    }
    assert(res@ =~= merged(left@, right@));
    res
}

/// The width that a column of natural width `col_width` receives when it is
/// placed among `cols` remaining columns sharing `width`.
pub fn flying(col_width: usize, cols: usize, width: usize, padding: usize) -> (size: usize)
    requires
        cols > 0,
    ensures
        size == capped(col_width as int, cols as int, width as int, padding as int),
{
    let fair: usize = match padding.checked_mul(2) {
        None => {
            assert(cols * (2 * padding + 1) >= 2 * padding + 1) by (nonlinear_arith)
                requires
                    cols >= 1,
                    padding >= 0,
            ;
            0
        },
        Some(p2) => match cols.checked_mul(p2) {
            None => {
                assert(cols * (2 * padding + 1) >= cols * (2 * padding)) by (nonlinear_arith)
                    requires
                        cols >= 1,
                        padding >= 0,
                ;
                0
            },
            Some(all) => {
                assert(cols * (2 * padding + 1) == cols * (2 * padding) + cols) by (nonlinear_arith);
                let space: usize = if all <= usize::MAX - cols {
                    all + (cols - 1)
                } else {
                    usize::MAX
                };
                if width >= space {
                    (width - space) / cols
                } else {
                    0
                }
            },
        },
    };
    if col_width <= fair {
        col_width
    } else {
        fair
    }
}

/// Among the first `n` columns not yet placed, the first one of smallest
/// natural width; -1 when all of them are placed.
pub open spec fn narrowest(dims: Seq<usize>, done: Seq<bool>, n: int) -> int
    decreases n,
{
    if n <= 0 {
        -1
    } else {
        let m = narrowest(dims, done, n - 1);
        if done[n - 1] {
            m
        } else if m < 0 || dims[n - 1] < dims[m] {
            n - 1
        } else {
            m
        }
    }
}

/// How many of the first `n` columns are not yet placed.
pub open spec fn open_count(done: Seq<bool>, n: int) -> int
    decreases n,
{
    if n <= 0 {
        0
    } else {
        open_count(done, n - 1) + if done[n - 1] {
            0int
        } else {
            1int
        }
    }
}

/// The natural widths of the first `n` columns not yet placed, summed.
pub open spec fn open_sum(dims: Seq<usize>, done: Seq<bool>, n: int) -> int
    decreases n,
{
    if n <= 0 {
        0
    } else {
        open_sum(dims, done, n - 1) + if done[n - 1] {
            0int
        } else {
            dims[n - 1] as int
        }
    }
}

/// The sum of the first `n` widths.
pub open spec fn total(dims: Seq<usize>, n: int) -> int
    decreases n,
{
    if n <= 0 {
        0
    } else {
        total(dims, n - 1) + dims[n - 1]
    }
}

/// `width` less `used`, or zero when `used` does not fit.
pub open spec fn remaining_after(width: int, used: int) -> int {
    if width >= used {
        width - used
    } else {
        0
    }
}

/// Places the `cols` columns still open, narrowest first: each gets its
/// natural width capped at its fair share of what is left, and the next ones
/// share what remains after it, its padding and one separator.
pub open spec fn place(
    dims: Seq<usize>,
    done: Seq<bool>,
    out: Seq<usize>,
    width: int,
    cols: int,
    padding: int,
) -> Seq<usize>
    decreases cols,
{
    if cols <= 0 {
        out
    } else {
        let m = narrowest(dims, done, dims.len() as int);
        let size = capped(dims[m] as int, cols, width, padding);
        place(
            dims,
            done.update(m, true),
            out.update(m, size as usize),
            remaining_after(width, size + 2 * padding + 1),
            cols - 1,
            padding,
        )
    }
}

/// The allocated width of each column, in the columns' own order.
pub open spec fn allocation(dims: Seq<usize>, width: int, padding: int) -> Seq<usize> {
    place(
        dims,
        Seq::new(dims.len(), |i: int| false),
        Seq::new(dims.len(), |i: int| 0usize),
        width,
        dims.len() as int,
        padding,
    )
}

/// Shares `width` out among columns of the given natural widths.
pub fn distribute(dimensions: &[usize], width: usize, padding: usize) -> (res: Vec<usize>)
    ensures
        res@ == allocation(dimensions@, width as int, padding as int),
        res@.len() == dimensions@.len(),
        forall|i: int| 0 <= i < res@.len() ==> #[trigger] res@[i] <= dimensions@[i],
{
    let n = dimensions.len();
    let mut done: Vec<bool> = Vec::new();
    let mut res: Vec<usize> = Vec::new();
    let mut i: usize = 0;
    while i < n
        invariant
            i <= n,
            n == dimensions@.len(),
            done@ =~= Seq::new(i as nat, |k: int| false),
            res@ =~= Seq::new(i as nat, |k: int| 0usize),
        decreases n - i,
    {
        done.push(false);
        res.push(0);
        i += 1;
    }
    proof {
        lemma_open_count_all(done@, n as int);
    }
    let ghost dims = dimensions@;
    let mut left: usize = width;
    let mut cols: usize = n;
    while cols > 0
        invariant
            n == dims.len(),
            dims == dimensions@,
            done@.len() == n,
            res@.len() == n,
            cols == open_count(done@, n as int),
            place(dims, done@, res@, left as int, cols as int, padding as int) == allocation(
                dims,
                width as int,
                padding as int,
            ),
        decreases cols,
    {
        let mut m: usize = n;
        let mut j: usize = 0;
        while j < n
            invariant
                j <= n,
                n == dims.len(),
                dims == dimensions@,
                done@.len() == n,
                m <= n,
                m == n <==> narrowest(dims, done@, j as int) == -1,
                m < n ==> m == narrowest(dims, done@, j as int),
            decreases n - j,
        {
            proof {
                lemma_narrowest_range(dims, done@, j as int);
            }
            if !done[j] && (m == n || dimensions[j] < dimensions[m]) {
                m = j;
            }
            j += 1;
        }
        proof {
            lemma_narrowest_open(dims, done@, n as int);
            lemma_open_count_update(done@, m as int, n as int);
        }
        let size = flying(dimensions[m], cols, left, padding);
        left = match padding.checked_mul(2) {
            None => 0,
            Some(p2) => match size.checked_add(p2) {
                None => 0,
                Some(a) => if a < left {
                    left - (a + 1)
                } else {
                    0
                },
            },
        };
        done.set(m, true);
        res.set(m, size);
        cols -= 1;
    }
    proof {
        lemma_allocation_bounded(dims, width as int, padding as int);
    }
    res
}

/// The column that `narrowest` picks lies in range.
pub proof fn lemma_narrowest_range(dims: Seq<usize>, done: Seq<bool>, n: int)
    requires
        0 <= n <= dims.len(),
        n <= done.len(),
    ensures
        -1 <= narrowest(dims, done, n) < n,
    decreases n,
{
    if n > 0 {
        lemma_narrowest_range(dims, done, n - 1);
    }
}

/// While a column is open, `narrowest` picks an open one, no wider than any
/// other open column.
pub proof fn lemma_narrowest_open(dims: Seq<usize>, done: Seq<bool>, n: int)
    requires
        0 <= n <= dims.len(),
        n <= done.len(),
    ensures
        open_count(done, n) > 0 ==> 0 <= narrowest(dims, done, n) < n && !done[narrowest(
            dims,
            done,
            n,
        )],
        open_count(done, n) >= 0,
        open_count(done, n) == 0 <==> narrowest(dims, done, n) == -1,
        narrowest(dims, done, n) == -1 ==> forall|j: int| 0 <= j < n ==> #[trigger] done[j],
        forall|j: int|
            0 <= j < n && !done[j] ==> 0 <= narrowest(dims, done, n) && dims[narrowest(
                dims,
                done,
                n,
            )] <= #[trigger] dims[j],
    decreases n,
{
    lemma_narrowest_range(dims, done, n);
    if n > 0 {
        lemma_narrowest_open(dims, done, n - 1);
        lemma_narrowest_range(dims, done, n - 1);
        let m = narrowest(dims, done, n);
        assert forall|j: int| 0 <= j < n && !done[j] implies 0 <= m && dims[m] <= #[trigger] dims[j] by {
            if j < n - 1 {
                assert(done[j] == false);
                assert(narrowest(dims, done, n - 1) != -1);
            }
        }
    }
}

/// Placing one open column closes exactly that one.
pub proof fn lemma_open_count_update(done: Seq<bool>, m: int, n: int)
    requires
        0 <= m,
        0 <= n <= done.len(),
        m < done.len(),
    ensures
        open_count(done.update(m, true), n) == open_count(done, n) - if m < n && !done[m] {
            1int
        } else {
            0int
        },
    decreases n,
{
    if n > 0 {
        lemma_open_count_update(done, m, n - 1);
    }
}

/// Before any column is placed, all of them are open.
pub proof fn lemma_open_count_all(done: Seq<bool>, n: int)
    requires
        0 <= n <= done.len(),
        forall|k: int| 0 <= k < done.len() ==> !done[k],
    ensures
        open_count(done, n) == n,
    decreases n,
{
    if n > 0 {
        lemma_open_count_all(done, n - 1);
    }
}

/// Closing an open column takes its natural width out of the open sum.
pub proof fn lemma_open_sum_update(dims: Seq<usize>, done: Seq<bool>, m: int, n: int)
    requires
        0 <= m < n <= done.len(),
        n <= dims.len(),
        !done[m],
    ensures
        open_sum(dims, done.update(m, true), n) == open_sum(dims, done, n) - dims[m],
    decreases n,
{
    if m < n - 1 {
        lemma_open_sum_update(dims, done, m, n - 1);
    } else {
        lemma_open_sum_same(dims, done, done.update(m, true), n - 1);
    }
}

/// The open sum reads only the first `n` columns.
pub proof fn lemma_open_sum_same(dims: Seq<usize>, d1: Seq<bool>, d2: Seq<bool>, n: int)
    requires
        0 <= n <= d1.len(),
        n <= d2.len(),
        forall|k: int| 0 <= k < n ==> d1[k] == d2[k],
    ensures
        open_sum(dims, d1, n) == open_sum(dims, d2, n),
    decreases n,
{
    if n > 0 {
        lemma_open_sum_same(dims, d1, d2, n - 1);
    }
}

/// When every open column is at least `x` wide, the open sum is at least `x`
/// times their number.
pub proof fn lemma_open_sum_lower(dims: Seq<usize>, done: Seq<bool>, x: int, n: int)
    requires
        0 <= n <= done.len(),
        n <= dims.len(),
        x >= 0,
        forall|j: int| 0 <= j < n && !done[j] ==> x <= #[trigger] dims[j],
    ensures
        open_sum(dims, done, n) >= x * open_count(done, n),
    decreases n,
{
    if n > 0 {
        lemma_open_sum_lower(dims, done, x, n - 1);
        let c = open_count(done, n - 1);
        assert(x * (c + 1) == x * c + x) by (nonlinear_arith);
    }
}

/// With no column placed, the open sum is the total.
pub proof fn lemma_open_sum_all(dims: Seq<usize>, done: Seq<bool>, n: int)
    requires
        0 <= n <= done.len(),
        n <= dims.len(),
        forall|k: int| 0 <= k < done.len() ==> !done[k],
    ensures
        open_sum(dims, done, n) == total(dims, n),
    decreases n,
{
    if n > 0 {
        lemma_open_sum_all(dims, done, n - 1);
    }
}

/// Each placement keeps the result as long as the inputs and no wider than
/// the natural widths.
pub proof fn lemma_place_bounded(
    dims: Seq<usize>,
    done: Seq<bool>,
    out: Seq<usize>,
    width: int,
    cols: int,
    padding: int,
)
    requires
        done.len() == dims.len(),
        out.len() == dims.len(),
        cols == open_count(done, dims.len() as int),
        padding >= 0,
        width >= 0,
        forall|i: int| 0 <= i < out.len() ==> out[i] <= dims[i],
    ensures
        place(dims, done, out, width, cols, padding).len() == dims.len(),
        forall|i: int|
            0 <= i < dims.len() ==> #[trigger] place(dims, done, out, width, cols, padding)[i]
                <= dims[i],
    decreases cols,
{
    if cols > 0 {
        let n = dims.len() as int;
        lemma_narrowest_open(dims, done, n);
        lemma_open_count_update(done, narrowest(dims, done, n), n);
        let m = narrowest(dims, done, n);
        let size = capped(dims[m] as int, cols, width, padding);
        lemma_fair_share_nonneg(cols, width, padding);
        lemma_place_bounded(
            dims,
            done.update(m, true),
            out.update(m, size as usize),
            remaining_after(width, size + 2 * padding + 1),
            cols - 1,
            padding,
        );
    }
}

/// The fair share is never negative.
pub proof fn lemma_fair_share_nonneg(cols: int, width: int, padding: int)
    requires
        cols > 0,
    ensures
        fair_share(cols, width, padding) >= 0,
{
    if width >= reserved(cols, padding) {
        assert((width - reserved(cols, padding)) / cols >= 0) by (nonlinear_arith)
            requires
                width - reserved(cols, padding) >= 0,
                cols > 0,
        ;
    }
}

/// The allocation has one width per column, and no column gets more than
/// its natural width.
pub proof fn lemma_allocation_bounded(dims: Seq<usize>, width: int, padding: int)
    requires
        width >= 0,
        padding >= 0,
    ensures
        allocation(dims, width, padding).len() == dims.len(),
        forall|i: int|
            0 <= i < dims.len() ==> #[trigger] allocation(dims, width, padding)[i] <= dims[i],
{
    let done = Seq::new(dims.len(), |i: int| false);
    lemma_open_count_all(done, dims.len() as int);
    lemma_place_bounded(
        dims,
        done,
        Seq::new(dims.len(), |i: int| 0usize),
        width,
        dims.len() as int,
        padding,
    );
}

/// When the open columns fit at their natural widths, placing them keeps
/// those widths.
pub proof fn lemma_place_natural(
    dims: Seq<usize>,
    done: Seq<bool>,
    out: Seq<usize>,
    width: int,
    cols: int,
    padding: int,
)
    requires
        done.len() == dims.len(),
        out.len() == dims.len(),
        cols == open_count(done, dims.len() as int),
        padding >= 0,
        cols > 0 ==> width >= open_sum(dims, done, dims.len() as int) + reserved(cols, padding),
        forall|i: int| 0 <= i < out.len() && done[i] ==> out[i] == dims[i],
    ensures
        place(dims, done, out, width, cols, padding) == dims,
    decreases cols,
{
    let n = dims.len() as int;
    lemma_narrowest_open(dims, done, n);
    if cols > 0 {
        let m = narrowest(dims, done, n);
        let x = dims[m] as int;
        lemma_open_count_update(done, m, n);
        lemma_open_sum_lower(dims, done, x, n);
        lemma_open_sum_update(dims, done, m, n);
        let rest = width - reserved(cols, padding);
        assert(rest >= x * cols);
        assert(rest / cols >= x) by (nonlinear_arith)
            requires
                rest >= x * cols,
                cols > 0,
        ;
        assert(reserved(cols, padding) == reserved(cols - 1, padding) + 2 * padding + 1)
            by (nonlinear_arith);
        if cols > 1 {
            assert(reserved(cols - 1, padding) >= 0) by (nonlinear_arith)
                requires
                    cols > 1,
                    padding >= 0,
            ;
        }
        let d2 = done.update(m, true);
        let o2 = out.update(m, x as usize);
        assert forall|i: int| 0 <= i < o2.len() && d2[i] implies o2[i] == dims[i] by {
            if i != m {
                assert(done[i]);
            }
        }
        lemma_place_natural(
            dims,
            d2,
            o2,
            remaining_after(width, x + 2 * padding + 1),
            cols - 1,
            padding,
        );
    } else {
        assert(out =~= dims);
    }
}

/// Columns whose natural widths, with their padding and separators, fit in
/// the total width are all allocated exactly their natural widths.
pub proof fn lemma_allocation_natural(dims: Seq<usize>, width: int, padding: int)
    requires
        padding >= 0,
        dims.len() > 0 ==> width >= total(dims, dims.len() as int) + reserved(
            dims.len() as int,
            padding,
        ),
    ensures
        allocation(dims, width, padding) == dims,
{
    let done = Seq::new(dims.len(), |i: int| false);
    lemma_open_count_all(done, dims.len() as int);
    lemma_open_sum_all(dims, done, dims.len() as int);
    lemma_place_natural(
        dims,
        done,
        Seq::new(dims.len(), |i: int| 0usize),
        width,
        dims.len() as int,
        padding,
    );
}

} // verus!

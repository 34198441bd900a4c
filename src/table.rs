//! The table: its configuration, its rows, and its rendering as text.
use vstd::prelude::*;
use crate::text::{
    join_all, joined, lemma_joined_len, lemma_repeat_add, lemma_spaces_len, push_repeat, repeat,
    spaces, texts,
};
use crate::widths::{allocation, distribute, max_merge, merged};
use crate::wrap::{lemma_wrapped_fits, split, wrapped};

verus! {

/// One row of cells.
pub type Row = Vec<String>;

/// Total width, padding, and the border glyphs of a table: the separator
/// between columns, the fill of the line under the title, and the junction
/// on that line.
pub struct TableConfig<'a> {
    pub width: usize,
    pub padding: usize,
    pub border: (&'a str, &'a str, &'a str),
}

impl<'a> TableConfig<'a> {
    /// The configuration that tables start with: width 80, padding 1,
    /// borders `|`, `-` and `+`.
    pub open spec fn is_default(&self) -> bool {
        &&& self.width == 80
        &&& self.padding == 1
        &&& self.border == ("|", "-", "+")
    }
}

impl<'a> Default for TableConfig<'a> {
    fn default() -> (r: TableConfig<'a>)
        ensures
            r.is_default(),
    {
        TableConfig { width: 80, padding: 1, border: ("|", "-", "+") }
    }
}

/// An optional title row, the data rows in the order they were added, and
/// the configuration they are rendered with.
pub struct Table<'a> {
    pub title: Option<Row>,
    pub rows: Vec<Row>,
    pub config: TableConfig<'a>,
}

impl<'a> Default for Table<'a> {
    fn default() -> (r: Table<'a>)
        ensures
            r.title is None,
            r.rows@.len() == 0,
            r.config.is_default(),
    {
        Table::new(TableConfig::default())
    }
}

/// The lines of column `c` of a row at width `w`: its wrapped cell, or one
/// empty line where the cell is missing or wraps to nothing.
pub open spec fn cell_lines(row: Seq<String>, c: int, w: usize) -> Seq<Seq<char>> {
    if c < row.len() && wrapped(row[c]@, w as int).len() > 0 {
        wrapped(row[c]@, w as int)
    } else {
        seq![Seq::empty()]
    }
}

/// Line `k` of a column, or the empty line below its last one.
pub open spec fn line_of(lines: Seq<Seq<char>>, k: int) -> Seq<char> {
    if 0 <= k < lines.len() {
        lines[k]
    } else {
        Seq::empty()
    }
}

/// `text` left-justified in `w` characters, with `padding` spaces on each side.
pub open spec fn pad_cell(text: Seq<char>, w: usize, padding: usize) -> Seq<char> {
    spaces(padding as nat) + text + spaces(
        if text.len() <= w {
            (w - text.len()) as nat
        } else {
            0
        },
    ) + spaces(padding as nat)
}

/// How many lines the first `n` columns of a row take: the most of any of them.
pub open spec fn row_height(row: Seq<String>, dims: Seq<usize>, n: int) -> int
    decreases n,
{
    if n <= 0 {
        0
    } else {
        let h = row_height(row, dims, n - 1);
        let l = cell_lines(row, n - 1, dims[n - 1]).len() as int;
        if h >= l {
            h
        } else {
            l
        }
    }
}

/// Line `k` of a rendered row: each column's line `k`, padded, joined by `sep`.
pub open spec fn row_line(
    row: Seq<String>,
    dims: Seq<usize>,
    padding: usize,
    sep: Seq<char>,
    k: int,
) -> Seq<char> {
    joined(
        Seq::new(
            dims.len(),
            |c: int| pad_cell(line_of(cell_lines(row, c, dims[c]), k), dims[c], padding),
        ),
        sep,
    )
}

/// The lines of a rendered row, as many as its tallest column.
pub open spec fn row_block(
    row: Seq<String>,
    dims: Seq<usize>,
    padding: usize,
    sep: Seq<char>,
) -> Seq<Seq<char>> {
    Seq::new(
        row_height(row, dims, dims.len() as int) as nat,
        |k: int| row_line(row, dims, padding, sep, k),
    )
}

/// The length of every line of a row rendered at the widths `dims`.
pub open spec fn line_width(dims: Seq<usize>, padding: usize, sep: Seq<char>) -> nat {
    joined(Seq::new(dims.len(), |c: int| spaces((dims[c] + 2 * padding) as nat)), sep).len()
}

/// The line under the title: for each column, `fill` once for each character
/// of its width and padding, joined by `junction`.
pub open spec fn separator_line(
    dims: Seq<usize>,
    padding: usize,
    fill: Seq<char>,
    junction: Seq<char>,
) -> Seq<char> {
    joined(
        Seq::new(dims.len(), |c: int| repeat(fill, (dims[c] + 2 * padding) as nat)),
        junction,
    )
}

/// Each padded cell is as long as its column's width and padding.
pub proof fn lemma_pad_cell_len(text: Seq<char>, w: usize, padding: usize)
    requires
        text.len() <= w,
    ensures
        pad_cell(text, w, padding).len() == w + 2 * padding,
{
    lemma_spaces_len(padding as nat);
    lemma_spaces_len((w - text.len()) as nat);
}

/// Every line of a rendered row has the same length.
pub proof fn lemma_row_rectangular(
    row: Seq<String>,
    dims: Seq<usize>,
    padding: usize,
    sep: Seq<char>,
    k: int,
)
    ensures
        row_line(row, dims, padding, sep, k).len() == line_width(dims, padding, sep),
{
    let parts = Seq::new(
        dims.len(),
        |c: int| pad_cell(line_of(cell_lines(row, c, dims[c]), k), dims[c], padding),
    );
    let blank = Seq::new(dims.len(), |c: int| spaces((dims[c] + 2 * padding) as nat));
    assert forall|c: int| 0 <= c < parts.len() implies #[trigger] parts[c].len()
        == blank[c].len() by {
        let lines = cell_lines(row, c, dims[c]);
        if c < row.len() {
            lemma_wrapped_fits(row[c]@, dims[c] as int);
        }
        assert(line_of(lines, k).len() <= dims[c]);
        lemma_pad_cell_len(line_of(lines, k), dims[c], padding);
        lemma_spaces_len((dims[c] + 2 * padding) as nat);
    }
    lemma_joined_len(parts, blank, sep);
}

/// The text of some lines, each followed by a newline.
pub open spec fn text_of(lines: Seq<Seq<char>>) -> Seq<char>
    decreases lines.len(),
{
    if lines.len() == 0 {
        Seq::empty()
    } else {
        text_of(lines.drop_last()) + lines.last() + seq!['\n']
    }
}

/// The text of the first `n` rows rendered at the widths `dims`, one after
/// the other.
pub open spec fn body_text(
    rows: Seq<Row>,
    dims: Seq<usize>,
    padding: usize,
    sep: Seq<char>,
    n: int,
) -> Seq<char>
    decreases n,
{
    if n <= 0 {
        Seq::empty()
    } else {
        body_text(rows, dims, padding, sep, n - 1) + text_of(
            row_block(rows[n - 1]@, dims, padding, sep),
        )
    }
}

/// Appends each line and a newline after it.
fn push_lines(out: &mut String, lines: &Vec<String>)
    ensures
        final(out)@ == old(out)@ + text_of(texts(lines@)),
{
    proof {
        reveal_strlit("\n");
        assert("\n"@ =~= seq!['\n']);
    }
    let mut i: usize = 0;
    while i < lines.len()
        invariant
            i <= lines@.len(),
            "\n"@ == seq!['\n'],
            out@ == old(out)@ + text_of(texts(lines@).subrange(0, i as int)),
        decreases lines@.len() - i,
    {
        out.append(lines[i].as_str());
        out.append("\n");
        proof {
            let done = texts(lines@).subrange(0, i + 1);
            assert(done.drop_last() =~= texts(lines@).subrange(0, i as int));
        }
        i += 1;
    }
    assert(texts(lines@).subrange(0, i as int) =~= texts(lines@));
}

/// The length of each cell of a row.
pub open spec fn cell_lens(row: Seq<String>) -> Seq<usize> {
    Seq::new(row.len(), |i: int| row[i]@.len() as usize)
}

/// The natural widths of the first `n` rows: for each column, its longest cell.
pub open spec fn natural(rows: Seq<Row>, n: int) -> Seq<usize>
    decreases n,
{
    if n <= 0 {
        Seq::empty()
    } else {
        merged(natural(rows, n - 1), cell_lens(rows[n - 1]@))
    }
}

/// The lengths of the cells of `row`.
fn lengths(row: &Row) -> (r: Vec<usize>)
    ensures
        r@ == cell_lens(row@),
{
    let mut r: Vec<usize> = Vec::new();
    let mut i: usize = 0;
    while i < row.len()
        invariant
            i <= row@.len(),
            r@ =~= cell_lens(row@).subrange(0, i as int),
        decreases row@.len() - i,
    {
        r.push(row[i].as_str().unicode_len());
        i += 1;
        assert(r@ =~= cell_lens(row@).subrange(0, i as int));
    }
    assert(r@ =~= cell_lens(row@));
    r
}

impl<'a> Table<'a> {
    /// The title, if any, followed by the data rows.
    pub open spec fn listed(&self) -> Seq<Row> {
        match self.title {
            Some(t) => seq![t] + self.rows@,
            None => self.rows@,
        }
    }

    /// The natural width of each column, over the title and all rows.
    pub open spec fn natural_widths(&self) -> Seq<usize> {
        natural(self.listed(), self.listed().len() as int)
    }

    /// The width each column is rendered at.
    pub open spec fn widths(&self) -> Seq<usize> {
        allocation(self.natural_widths(), self.config.width as int, self.config.padding as int)
    }

    /// The rendered text: the title's lines and the separator line, if there
    /// is a title, then each row's lines in order, every line ended by a newline.
    pub open spec fn rendered(&self) -> Seq<char> {
        let dims = self.widths();
        let padding = self.config.padding;
        let sep = self.config.border.0@;
        let head = match self.title {
            Some(t) => text_of(row_block(t@, dims, padding, sep)) + separator_line(
                dims,
                padding,
                self.config.border.1@,
                self.config.border.2@,
            ) + seq!['\n'],
            None => Seq::empty(),
        };
        head + body_text(self.rows@, dims, padding, sep, self.rows@.len() as int)
    }

    /// An empty table with the given configuration.
    pub fn new(config: TableConfig<'a>) -> (r: Table<'a>)
        ensures
            r.title is None,
            r.rows@.len() == 0,
            r.config == config,
    {
        Table { title: None, rows: Vec::new(), config: config }
    }

    /// An empty table of the given total width, otherwise configured by default.
    pub fn with_width(width: usize) -> (r: Table<'a>)
        ensures
            r.title is None,
            r.rows@.len() == 0,
            r.config.width == width,
            r.config.padding == 1,
            r.config.border == ("|", "-", "+"),
    {
        let mut config = TableConfig::default();
        config.width = width;
        Table::new(config)
    }

    /// Sets the title row.
    pub fn set_title(&mut self, title: Row)
        ensures
            final(self).title == Some(title),
            final(self).rows@ == old(self).rows@,
            final(self).config == old(self).config,
    {
        self.title = Some(title);
    }

    /// Adds a row after the others.
    pub fn add_row(&mut self, row: Row)
        ensures
            final(self).rows@ == old(self).rows@.push(row),
            final(self).title == old(self).title,
            final(self).config == old(self).config,
    {
        self.rows.push(row);
    }

    /// Moves all of `rows` after the others, leaving `rows` empty.
    pub fn add_rows(&mut self, rows: &mut Vec<Row>)
        ensures
            final(self).rows@ == old(self).rows@ + old(rows)@,
            final(rows)@.len() == 0,
            final(self).title == old(self).title,
            final(self).config == old(self).config,
    {
        self.rows.append(rows);
    }

    /// The width each column is rendered at: the natural widths over the
    /// title and all rows, shared out within the configured total width.
    pub fn dimensions(&self) -> (r: Vec<usize>)
        ensures
            r@ == self.widths(),
    {
        let ghost listed = self.listed();
        let mut widths: Vec<usize> = Vec::new();
        let mut done: usize = 0;
        match &self.title {
            Some(t) => {
                widths = max_merge(widths.as_slice(), lengths(t).as_slice());
                done = 1;
                assert(natural(listed, 1) == merged(natural(listed, 0), cell_lens(t@)));
            },
            None => {},
        }
        let mut i: usize = 0;
        while i < self.rows.len()
            invariant
                listed == self.listed(),
                i <= self.rows@.len(),
                done == listed.len() - self.rows@.len(),
                widths@ == natural(listed, done + i),
            decreases self.rows@.len() - i,
        {
            assert(listed[done + i] == self.rows@[i as int]);
            widths = max_merge(widths.as_slice(), lengths(&self.rows[i]).as_slice());
            i += 1;
        }
        distribute(widths.as_slice(), self.config.width, self.config.padding)
    }

    /// The lines of `row` rendered at the column widths `dims`: every
    /// column's cell wrapped to its width, shorter columns filled with empty
    /// lines, each line padded and joined by the column separator. All the
    /// lines have the same length.
    pub fn fmt_row(&self, row: &[String], dims: &[usize]) -> (r: Vec<String>)
        ensures
            texts(r@) == row_block(row@, dims@, self.config.padding, self.config.border.0@),
            forall|k: int|
                0 <= k < r@.len() ==> #[trigger] r@[k]@.len() == line_width(
                    dims@,
                    self.config.padding,
                    self.config.border.0@,
                ),
    {
        let n = dims.len();
        let padding = self.config.padding;
        let mut expanded: Vec<Vec<String>> = Vec::new();
        let mut height: usize = 0;
        let mut c: usize = 0;
        while c < n
            invariant
                c <= n,
                n == dims@.len(),
                expanded@.len() == c,
                height == row_height(row@, dims@, c as int),
                forall|j: int|
                    0 <= j < c ==> texts(#[trigger] expanded@[j]@) == cell_lines(
                        row@,
                        j,
                        dims@[j],
                    ),
            decreases n - c,
        {
            let mut lines: Vec<String> = if c < row.len() {
                split(row[c].as_str(), dims[c])
            } else {
                Vec::new()
            };
            if lines.len() == 0 {
                lines.push(String::new());
                assert(texts(lines@) =~= seq![Seq::<char>::empty()]);
            }
            if lines.len() > height {
                height = lines.len();
            }
            expanded.push(lines);
            c += 1;
        }
        let ghost lines_of = Seq::new(n as nat, |j: int| texts(expanded@[j]@));
        proof {
            reveal_strlit(" ");
            assert(" "@ =~= seq![' ']);
        }
        let empty = String::new();
        let mut out: Vec<String> = Vec::new();
        let mut k: usize = 0;
        while k < height
            invariant
                k <= height,
                n == dims@.len(),
                padding == self.config.padding,
                expanded@.len() == n,
                height == row_height(row@, dims@, n as int),
                empty@ == Seq::<char>::empty(),
                " "@ == seq![' '],
                forall|j: int|
                    0 <= j < n ==> texts(#[trigger] expanded@[j]@) == cell_lines(
                        row@,
                        j,
                        dims@[j],
                    ),
                texts(out@) =~= row_block(row@, dims@, padding, self.config.border.0@).subrange(
                    0,
                    k as int,
                ),
            decreases height - k,
        {
            let mut parts: Vec<String> = Vec::new();
            let mut c: usize = 0;
            while c < n
                invariant
                    c <= n,
                    n == dims@.len(),
                    expanded@.len() == n,
                    empty@ == Seq::<char>::empty(),
                    " "@ == seq![' '],
                    forall|j: int|
                        0 <= j < n ==> texts(#[trigger] expanded@[j]@) == cell_lines(
                            row@,
                            j,
                            dims@[j],
                        ),
                    texts(parts@) =~= Seq::new(
                        c as nat,
                        |j: int|
                            pad_cell(
                                line_of(cell_lines(row@, j, dims@[j]), k as int),
                                dims@[j],
                                padding,
                            ),
                    ),
                decreases n - c,
            {
                let text: &String = if k < expanded[c].len() {
                    &expanded[c][k]
                } else {
                    &empty
                };
                assert(text@ == line_of(cell_lines(row@, c as int, dims@[c as int]), k as int));
                let len = text.as_str().unicode_len();
                let fill: usize = if len <= dims[c] {
                    dims[c] - len
                } else {
                    0
                };
                let mut cell = String::new();
                push_repeat(&mut cell, " ", padding);
                cell.append(text.as_str());
                push_repeat(&mut cell, " ", fill);
                push_repeat(&mut cell, " ", padding);
                let ghost before = parts@;
                parts.push(cell);
                c += 1;
                assert(texts(parts@) =~= texts(before).push(cell@));
            }
            let line = join_all(&parts, self.config.border.0);
            proof {
                assert(texts(parts@) =~= Seq::new(
                    n as nat,
                    |j: int|
                        pad_cell(line_of(cell_lines(row@, j, dims@[j]), k as int), dims@[j], padding),
                ));
                lemma_row_rectangular(row@, dims@, padding, self.config.border.0@, k as int);
            }
            let ghost before = out@;
            out.push(line);
            k += 1;
            assert(texts(out@) =~= texts(before).push(line@));
        }
        proof {
            assert forall|j: int| 0 <= j < out@.len() implies #[trigger] out@[j]@.len()
                == line_width(dims@, padding, self.config.border.0@) by {
                assert(out@[j]@ == texts(out@)[j]);
                lemma_row_rectangular(row@, dims@, padding, self.config.border.0@, j);
            }
        }
        out
    }

    /// The line under the title at the column widths `dims`.
    pub fn fmt_seperator(&self, dims: &[usize]) -> (r: String)
        ensures
            r@ == separator_line(
                dims@,
                self.config.padding,
                self.config.border.1@,
                self.config.border.2@,
            ),
    {
        let padding = self.config.padding;
        let fill = self.config.border.1;
        let mut parts: Vec<String> = Vec::new();
        let mut c: usize = 0;
        while c < dims.len()
            invariant
                c <= dims@.len(),
                padding == self.config.padding,
                fill == self.config.border.1,
                texts(parts@) =~= Seq::new(
                    c as nat,
                    |j: int| repeat(fill@, (dims@[j] + 2 * padding) as nat),
                ),
            decreases dims@.len() - c,
        {
            let mut cell = String::new();
            push_repeat(&mut cell, fill, padding);
            push_repeat(&mut cell, fill, dims[c]);
            push_repeat(&mut cell, fill, padding);
            proof {
                lemma_repeat_add(fill@, padding as nat, dims@[c as int] as nat);
                lemma_repeat_add(fill@, (padding + dims@[c as int]) as nat, padding as nat);
                assert(cell@ =~= repeat(fill@, (dims@[c as int] + 2 * padding) as nat));
            }
            let ghost before = parts@;
            parts.push(cell);
            c += 1;
            assert(texts(parts@) =~= texts(before).push(cell@));
        }
        join_all(&parts, self.config.border.2)
    }

    /// The table as text: the title, if any, and the line under it, then the
    /// rows, each at the widths that `dimensions` gives.
    pub fn render(&self) -> (r: String)
        ensures
            r@ == self.rendered(),
    {
        let dims = self.dimensions();
        let padding = self.config.padding;
        let sep = self.config.border.0;
        let mut out = String::new();
        match &self.title {
            Some(t) => {
                let block = self.fmt_row(t.as_slice(), dims.as_slice());
                push_lines(&mut out, &block);
                let line = self.fmt_seperator(dims.as_slice());
                let ghost before = out@;
                let lines = vec![line];
                push_lines(&mut out, &lines);
                proof {
                    let one = texts(lines@);
                    assert(one =~= seq![line@]);
                    assert(one.drop_last() =~= Seq::<Seq<char>>::empty());
                    assert(text_of(Seq::<Seq<char>>::empty()) == Seq::<char>::empty());
                    assert(one.last() == line@);
                    assert(text_of(one) =~= line@ + seq!['\n']);
                    assert(out@ =~= text_of(row_block(t@, dims@, padding, sep@)) + line@ + seq![
                        '\n',
                    ]);
                }
            },
            None => {},
        }
        let ghost head = out@;
        let mut i: usize = 0;
        while i < self.rows.len()
            invariant
                i <= self.rows@.len(),
                dims@ == self.widths(),
                padding == self.config.padding,
                sep == self.config.border.0,
                out@ == head + body_text(self.rows@, dims@, padding, sep@, i as int),
            decreases self.rows@.len() - i,
        {
            push_lines(&mut out, &self.fmt_row(self.rows[i].as_slice(), dims.as_slice()));
            i += 1;
        }
        assert(out@ =~= self.rendered());
        out
    }
}

} // verus!

//! Data tables: column definitions, rows of cell text, and drawing
//! settings. All lengths are fixed-point milli-points.
use vstd::prelude::*;
use crate::color::Color;

verus! {

/// Horizontal alignment of cell text.
#[derive(Clone, Copy)]
pub enum TextAlign {
    Left,
    Center,
    Right,
}

/// The alignment a column gets when none is named.
pub fn default_text_align() -> (r: TextAlign)
    ensures
        r is Left,
{
    TextAlign::Left
}

/// One column: its header text, width, alignment, and an optional data
/// field name for binding.
pub struct TableColumn {
    pub header: String,
    pub width: i64,
    pub align: TextAlign,
    pub field: Option<String>,
}

/// Drawing settings for a table.
#[derive(Clone, Copy)]
pub struct TableSettings {
    pub padding: i64,
    pub border_width: i64,
    pub header_height: i64,
    pub cell_height: i64,
    pub font_size: i64,
    pub font_color: Option<Color>,
}

impl TableSettings {
    /// All lengths are non-negative fixed-point values in range.
    pub open spec fn wf(&self) -> bool {
        &&& 0 <= self.padding <= crate::fx::FX_MAX
        &&& 0 <= self.border_width <= crate::fx::FX_MAX
        &&& 0 <= self.header_height <= crate::fx::FX_MAX
        &&& 0 <= self.cell_height <= crate::fx::FX_MAX
        &&& 0 < self.font_size <= crate::fx::FX_MAX
        &&& (self.font_color matches Some(c) ==> c.wf())
    }
}

/// The default drawing settings as a spec value.
pub open spec fn spec_default_settings() -> TableSettings {
    TableSettings {
        padding: 5000int as i64,
        border_width: 1000int as i64,
        header_height: 30000int as i64,
        cell_height: 20000int as i64,
        font_size: 10000int as i64,
        font_color: None,
    }
}

impl Default for TableSettings {
    /// Padding 5, border 1, header 30, cells 20, font size 10; the text
    /// color inherits.
    fn default() -> (r: TableSettings)
        ensures
            r == spec_default_settings(),
            r.wf(),
    {
        TableSettings {
            padding: 5000,
            border_width: 1000,
            header_height: 30000,
            cell_height: 20000,
            font_size: 10000,
            font_color: None,
        }
    }
}

/// A table: columns, rows of cell strings, and settings. Every row holds
/// exactly one cell per column.
pub struct Table {
    pub columns: Vec<TableColumn>,
    pub rows: Vec<Vec<String>>,
    pub settings: TableSettings,
}

/// A row padded or cut to exactly `n` cells: missing cells become empty
/// strings.
pub open spec fn padded_row(row: Seq<Seq<char>>, n: nat) -> Seq<Seq<char>> {
    if row.len() >= n {
        row.subrange(0, n as int)
    } else {
        row + Seq::new((n - row.len()) as nat, |i: int| Seq::<char>::empty())
    }
}

impl Table {
    /// Every row has as many cells as there are columns, and settings and
    /// column widths are in range.
    pub open spec fn wf(&self) -> bool {
        &&& forall|k: int|
            0 <= k < self.rows@.len() ==> (#[trigger] self.rows@[k])@.len()
                == self.columns@.len()
        &&& self.settings.wf()
        &&& forall|k: int| 0 <= k < self.columns@.len() ==> 0 <= (#[trigger] self.columns@[k]).width
            <= crate::fx::FX_MAX
    }

    /// A table over these columns, with default settings and no rows.
    pub fn new(columns: Vec<TableColumn>) -> (r: Table)
        requires
            forall|k: int| 0 <= k < columns@.len() ==> 0 <= (#[trigger] columns@[k]).width
                <= crate::fx::FX_MAX,
        ensures
            r.columns == columns,
            r.rows@.len() == 0,
            r.settings == spec_default_settings(),
            r.wf(),
    {
        Table { columns, rows: Vec::new(), settings: TableSettings::default() }
    }

    /// Append a row, padded with empty cells or cut so its length matches
    /// the column count.
    pub fn add_row(&mut self, row: Vec<String>)
        requires
            old(self).wf(),
        ensures
            final(self).wf(),
            final(self).columns == old(self).columns,
            final(self).settings == old(self).settings,
            final(self).rows@.len() == old(self).rows@.len() + 1,
            final(self).rows@.subrange(0, old(self).rows@.len() as int) == old(self).rows@,
            final(self).rows@.last()@.map_values(|s: String| s@) == padded_row(
                row@.map_values(|s: String| s@),
                old(self).columns@.len(),
            ),
    {
        let n = self.columns.len();
        let mut r = row;
        let ghost row0 = r@;
        if r.len() > n {
            r.truncate(n);
            proof {
                assert(r@.map_values(|s: String| s@) =~= padded_row(
                    row0.map_values(|s: String| s@),
                    n as nat,
                ));
            }
        } else {
            while r.len() < n
                invariant
                    r@.len() <= n,
                    row0.len() <= r@.len(),
                    r@.subrange(0, row0.len() as int) == row0,
                    forall|k: int| row0.len() <= k < r@.len() ==> (#[trigger] r@[k])@ == Seq::<
                        char,
                    >::empty(),
                decreases n - r@.len(),
            {
                r.push(String::new());
                proof {
                    assert(r@.subrange(0, row0.len() as int) =~= row0);
                }
            }
            proof {
                assert(r@.map_values(|s: String| s@) =~= padded_row(
                    row0.map_values(|s: String| s@),
                    n as nat,
                ));
            }
        }
        let ghost rowspre = self.rows@;
        self.rows.push(r);
        proof {
            assert(self.rows@.subrange(0, rowspre.len() as int) =~= rowspre);
        }
    }
}

} // verus!

use crate::text::{line_count_of, leading_of};
use crate::fx::{fx_clamp, fx_ok, fx_add, fx_sub, fx_mul_count, FX_MAX};
use crate::font::Font;

verus! {

/// The abstract value of a column: its header text, width, alignment and
/// binding field.
pub struct ColV {
    pub header: Seq<char>,
    pub width: int,
    pub align: TextAlign,
    pub field: Option<Seq<char>>,
}

/// The abstract value of one column.
pub open spec fn col_v(c: TableColumn) -> ColV {
    ColV {
        header: c.header@,
        width: c.width as int,
        align: c.align,
        field: match c.field {
            Some(f) => Some(f@),
            None => None,
        },
    }
}

/// The abstract values of a column list.
pub open spec fn cols_v(cs: Seq<TableColumn>) -> Seq<ColV> {
    cs.map_values(|c: TableColumn| col_v(c))
}

/// The abstract value of a table.
pub struct TableV {
    pub columns: Seq<ColV>,
    pub rows: Seq<Seq<Seq<char>>>,
    pub settings: TableSettings,
}

/// The abstract value of a table.
pub open spec fn table_v(t: Table) -> TableV {
    TableV { columns: cols_v(t.columns@), rows: rows_view(t.rows@), settings: t.settings }
}

/// The wrapping width inside a cell: the column width less the padding on
/// both sides, floored at the saturation bound.
pub open spec fn cell_width_of(col_width: int, padding: int) -> int {
    fx_clamp(col_width - fx_clamp(padding + padding))
}

/// The column width used for a cell: the declared one, or 100 points when a
/// row has more cells than columns.
pub open spec fn col_width_at(cols: Seq<ColV>, j: int) -> int {
    if 0 <= j < cols.len() {
        cols[j].width
    } else {
        100_000
    }
}

/// The line count of the tallest cell in a row, at least one.
pub open spec fn row_lines_of(
    data: Seq<u8>,
    cells: Seq<Seq<char>>,
    cols: Seq<ColV>,
    padding: int,
    size: int,
) -> nat
    decreases cells.len(),
{
    if cells.len() == 0 {
        1
    } else {
        let rest = row_lines_of(data, cells.drop_last(), cols, padding, size);
        let j = cells.len() - 1;
        let l = line_count_of(data, cells[j], size, cell_width_of(col_width_at(cols, j), padding));
        if l > rest {
            l
        } else {
            rest
        }
    }
}

/// The drawn height of one row: the tallest cell's lines at the row's
/// leading, plus padding above and below, plus an 8-point allowance.
pub open spec fn row_height_of(
    data: Seq<u8>,
    cells: Seq<Seq<char>>,
    cols: Seq<ColV>,
    padding: int,
    size: int,
) -> int {
    let content = fx_clamp(leading_of(size) * row_lines_of(data, cells, cols, padding, size));
    fx_clamp(fx_clamp(content + fx_clamp(padding + padding)) + 8000)
}

/// The view of a row list as character sequences.
pub open spec fn rows_view(rows: Seq<Vec<String>>) -> Seq<Seq<Seq<char>>> {
    rows.map_values(|r: Vec<String>| r@.map_values(|s: String| s@))
}

/// The summed heights of the first `k` rows, saturating.
pub open spec fn rows_height_upto(
    data: Seq<u8>,
    rows: Seq<Seq<Seq<char>>>,
    cols: Seq<ColV>,
    padding: int,
    size: int,
    k: int,
) -> int
    decreases k,
{
    if k <= 0 {
        0
    } else {
        fx_clamp(
            rows_height_upto(data, rows, cols, padding, size, k - 1) + row_height_of(
                data,
                rows[k - 1],
                cols,
                padding,
                size,
            ),
        )
    }
}

/// The summed widths of all columns, saturating.
pub open spec fn cols_width_upto(cols: Seq<ColV>, k: int) -> int
    decreases k,
{
    if k <= 0 {
        0
    } else {
        fx_clamp(cols_width_upto(cols, k - 1) + cols[k - 1].width)
    }
}

/// The y position after drawing a table from `y`: the header band and the
/// first `k` rows subtracted, each step saturating.
pub open spec fn table_y_after(data: Seq<u8>, t: TableV, y: int, k: int) -> int
    decreases k,
{
    if k <= 0 {
        fx_clamp(y - t.settings.header_height)
    } else {
        fx_clamp(
            table_y_after(data, t, y, k - 1) - row_height_of(
                data,
                t.rows[k - 1],
                t.columns,
                t.settings.padding as int,
                t.settings.font_size as int,
            ),
        )
    }
}

/// The full drawn height of a table: header band plus every row.
pub open spec fn table_height_of(data: Seq<u8>, t: TableV) -> int {
    fx_clamp(
        t.settings.header_height + rows_height_upto(
            data,
            t.rows,
            t.columns,
            t.settings.padding as int,
            t.settings.font_size as int,
            t.rows.len() as int,
        ),
    )
}

proof fn lemma_row_lines_pos(
    data: Seq<u8>,
    cells: Seq<Seq<char>>,
    cols: Seq<ColV>,
    padding: int,
    size: int,
)
    ensures
        row_lines_of(data, cells, cols, padding, size) >= 1,
    decreases cells.len(),
{
    if cells.len() > 0 {
        lemma_row_lines_pos(data, cells.drop_last(), cols, padding, size);
    }
}

/// Row heights are positive and bounded.
pub proof fn lemma_row_height_bounds(
    data: Seq<u8>,
    cells: Seq<Seq<char>>,
    cols: Seq<ColV>,
    padding: int,
    size: int,
)
    requires
        0 <= padding,
        0 < size,
    ensures
        8000 <= row_height_of(data, cells, cols, padding, size) <= FX_MAX,
{
    lemma_row_lines_pos(data, cells, cols, padding, size);
    let lines = row_lines_of(data, cells, cols, padding, size);
    assert(0 <= leading_of(size) * lines) by (nonlinear_arith)
        requires
            0 <= leading_of(size),
            0 <= lines,
    ;
}

/// Partial row-height sums are non-negative and bounded.
pub proof fn lemma_rows_height_bounds(
    data: Seq<u8>,
    rows: Seq<Seq<Seq<char>>>,
    cols: Seq<ColV>,
    padding: int,
    size: int,
    k: int,
)
    requires
        0 <= padding,
        0 < size,
    ensures
        0 <= rows_height_upto(data, rows, cols, padding, size, k) <= FX_MAX,
    decreases k,
{
    if k > 0 {
        lemma_rows_height_bounds(data, rows, cols, padding, size, k - 1);
        lemma_row_height_bounds(data, rows[k - 1], cols, padding, size);
    }
}

impl TableColumn {
    /// An equal column definition.
    pub fn duplicate(&self) -> (r: TableColumn)
        ensures
            r.header@ == self.header@,
            r.width == self.width,
            r.align == self.align,
            (match (r.field, self.field) {
                (Some(a), Some(b)) => a@ == b@,
                (None, None) => true,
                _ => false,
            }),
    {
        let field = match &self.field {
            Some(f) => {
                let c = crate::chars::str_to_chars(f.as_str());
                Some(crate::chars::string_from_chars(&c))
            },
            None => None,
        };
        let hc = crate::chars::str_to_chars(self.header.as_str());
        TableColumn {
            header: crate::chars::string_from_chars(&hc),
            width: self.width,
            align: self.align,
            field,
        }
    }
}

impl Table {
    /// The drawn height of row `k`, from its cells' wrapped line counts.
    pub fn row_height(&self, k: usize, font: &mut Font) -> (r: i64)
        requires
            self.wf(),
            old(font).wf(),
            k < self.rows@.len(),
        ensures
            final(font).wf(),
            final(font).data@ == old(font).data@,
            final(font).name@ == old(font).name@,
            r == row_height_of(
                old(font).data@,
                rows_view(self.rows@)[k as int],
                cols_v(self.columns@),
                self.settings.padding as int,
                self.settings.font_size as int,
            ),
            8000 <= r <= FX_MAX,
    {
        let ghost data = font.data@;
        let ghost cellsv = rows_view(self.rows@)[k as int];
        let row = &self.rows[k];
        let padding = self.settings.padding;
        let size = self.settings.font_size;
        let mut max_lines: usize = 1;
        let mut j: usize = 0;
        proof {
            assert(cellsv.subrange(0, 0) =~= Seq::<Seq<char>>::empty());
        }
        while j < row.len()
            invariant
                0 <= j <= row@.len(),
                row@.map_values(|s: String| s@) == cellsv,
                cellsv.len() == row@.len(),
                font.wf(),
                font.data@ == data,
                font.name@ == old(font).name@,
                self.wf(),
                k < self.rows@.len(),
                row == &self.rows[k as int],
                padding == self.settings.padding,
                size == self.settings.font_size,
                max_lines == row_lines_of(
                    data,
                    cellsv.subrange(0, j as int),
                    cols_v(self.columns@),
                    padding as int,
                    size as int,
                ),
                1 <= max_lines,
            decreases row@.len() - j,
        {
            let colw: i64 = if j < self.columns.len() {
                self.columns[j].width
            } else {
                100_000
            };
            let avail = fx_sub(colw, fx_add(padding, padding));
            let l = crate::text::calculate_text_lines(row[j].as_str(), avail, size, font);
            if l > max_lines {
                max_lines = l;
            }
            proof {
                let pre = cellsv.subrange(0, j as int);
                let cur = cellsv.subrange(0, j as int + 1);
                assert(cur.drop_last() =~= pre);
                assert(cur.last() == cellsv[j as int]);
                assert(cellsv[j as int] == row@[j as int]@);
            }
            j = j + 1;
        }
        proof {
            assert(cellsv.subrange(0, cellsv.len() as int) =~= cellsv);
            lemma_row_lines_pos(data, cellsv, cols_v(self.columns@), padding as int, size as int);
        }
        let lead = crate::text::leading(size);
        let content = fx_mul_count(lead, max_lines);
        let r = fx_add(fx_add(content, fx_add(padding, padding)), 8000);
        proof {
            assert(8000 <= r);
        }
        r
    }

    /// The drawn width of the table: the sum of its column widths.
    pub fn total_width(&self) -> (r: i64)
        requires
            self.wf(),
        ensures
            r == cols_width_upto(cols_v(self.columns@), self.columns@.len() as int),
            0 <= r <= FX_MAX,
    {
        let mut w: i64 = 0;
        let mut j: usize = 0;
        while j < self.columns.len()
            invariant
                0 <= j <= self.columns@.len(),
                self.wf(),
                w == cols_width_upto(cols_v(self.columns@), j as int),
                0 <= w <= FX_MAX,
            decreases self.columns@.len() - j,
        {
            w = fx_add(w, self.columns[j].width);
            j = j + 1;
        }
        w
    }
}

} // verus!

verus! {

impl Table {
    /// A table with the same abstract value.
    pub fn duplicate(&self) -> (r: Table)
        ensures
            table_v(r) == table_v(*self),
            self.wf() ==> r.wf(),
    {
        let mut columns: Vec<TableColumn> = Vec::new();
        let mut i: usize = 0;
        while i < self.columns.len()
            invariant
                0 <= i <= self.columns@.len(),
                columns@.len() == i,
                cols_v(columns@) == cols_v(self.columns@).subrange(0, i as int),
                forall|k: int|
                    0 <= k < i ==> (#[trigger] columns@[k]).width == self.columns@[k].width,
            decreases self.columns@.len() - i,
        {
            columns.push(self.columns[i].duplicate());
            proof {
                assert(cols_v(columns@) =~= cols_v(self.columns@).subrange(0, i as int + 1));
            }
            i = i + 1;
        }
        let mut rows: Vec<Vec<String>> = Vec::new();
        let mut j: usize = 0;
        while j < self.rows.len()
            invariant
                0 <= j <= self.rows@.len(),
                rows@.len() == j,
                rows_view(rows@) == rows_view(self.rows@).subrange(0, j as int),
                forall|k: int|
                    0 <= k < j ==> (#[trigger] rows@[k])@.len() == self.rows@[k]@.len(),
            decreases self.rows@.len() - j,
        {
            let row = copy_string_vec(&self.rows[j]);
            rows.push(row);
            proof {
                assert(rows_view(rows@) =~= rows_view(self.rows@).subrange(0, j as int + 1));
            }
            j = j + 1;
        }
        let r = Table { columns, rows, settings: self.settings };
        proof {
            assert(cols_v(r.columns@) =~= cols_v(self.columns@));
            assert(rows_view(r.rows@) =~= rows_view(self.rows@));
            assert(table_v(r) == table_v(*self));
            if self.wf() {
                assert forall|k: int|
                    0 <= k < r.columns@.len() implies 0 <= (#[trigger] r.columns@[k]).width
                    <= FX_MAX by {
                    assert(r.columns@[k].width == self.columns@[k].width);
                }
            }
        }
        r
    }
}

/// Copy a string list, preserving its views.
pub fn copy_string_vec(v: &Vec<String>) -> (r: Vec<String>)
    ensures
        r@.map_values(|s: String| s@) == v@.map_values(|s: String| s@),
        r@.len() == v@.len(),
{
    let mut r: Vec<String> = Vec::new();
    let mut i: usize = 0;
    while i < v.len()
        invariant
            0 <= i <= v@.len(),
            r@.len() == i,
            r@.map_values(|s: String| s@) == v@.map_values(|s: String| s@).subrange(0, i as int),
        decreases v@.len() - i,
    {
        let c = crate::chars::str_to_chars(v[i].as_str());
        r.push(crate::chars::string_from_chars(&c));
        proof {
            assert(r@.map_values(|s: String| s@) =~= v@.map_values(|s: String| s@).subrange(
                0,
                i as int + 1,
            ));
        }
        i = i + 1;
    }
    proof {
        assert(r@.map_values(|s: String| s@) =~= v@.map_values(|s: String| s@));
    }
    r
}

} // verus!

verus! {

/// Partial row-height sums read only the first `k` rows.
pub proof fn lemma_rows_height_prefix(
    data: Seq<u8>,
    rows1: Seq<Seq<Seq<char>>>,
    rows2: Seq<Seq<Seq<char>>>,
    cols: Seq<ColV>,
    padding: int,
    size: int,
    k: int,
)
    requires
        forall|i: int|
            0 <= i < k ==> 0 <= i < rows1.len() && 0 <= i < rows2.len() && #[trigger] rows1[i]
                == rows2[i],
    ensures
        rows_height_upto(data, rows1, cols, padding, size, k) == rows_height_upto(
            data,
            rows2,
            cols,
            padding,
            size,
            k,
        ),
    decreases k,
{
    if k > 0 {
        assert(rows1[k - 1] == rows2[k - 1]);
        lemma_rows_height_prefix(data, rows1, rows2, cols, padding, size, k - 1);
    }
}

} // verus!

verus! {

/// The measured height through `k` rows is non-negative and bounded.
pub proof fn lemma_rows_height_bounds_upto(data: Seq<u8>, t: TableV, k: int)
    requires
        0 <= t.settings.header_height <= FX_MAX,
        0 <= t.settings.padding,
        0 < t.settings.font_size,
        0 <= k,
    ensures
        t.settings.header_height <= crate::layout::table_h_upto(data, t, k) <= FX_MAX,
    decreases k,
{
    if k > 0 {
        lemma_rows_height_bounds_upto(data, t, k - 1);
        lemma_row_height_bounds(
            data,
            t.rows[k - 1],
            t.columns,
            t.settings.padding as int,
            t.settings.font_size as int,
        );
    }
}

} // verus!

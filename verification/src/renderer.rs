use vstd::prelude::*;

use crate::emulator::TermCell;
use crate::text::push_char;

verus! {

/// The cells of one screen row.
pub type Row = Vec<TermCell>;

// ── Rows ──────────────────────────────────────────────────────────────────────

/// The cells of `cells` that lie in screen row `r`, in the order they come in.
pub open spec fn cells_in_row(cells: Seq<TermCell>, r: int) -> Seq<TermCell> {
    cells.filter(|c: TermCell| c.row == r)
}

/// The cells of `s` that lie in column `col`, in the order they come in.
pub open spec fn cells_in_column(s: Seq<TermCell>, col: int) -> Seq<TermCell> {
    s.filter(|c: TermCell| c.col == col)
}

/// `s` stably sorted by column: grouped by ascending column, cells of one
/// column keeping their order in `s`.
pub open spec fn sorted_by_col(s: Seq<TermCell>) -> Seq<TermCell> {
    Seq::new(0x1_0000, |v: int| cells_in_column(s, v)).flatten()
}

/// `slice::sort_by_key` keyed by the cell's column. The standard library
/// documents this sort as stable (equal keys keep their order), which is
/// what the `ensures` states; nothing else about it is claimed.
#[verifier::external_body]
fn sort_cells_by_col(row: &mut Vec<TermCell>)
    ensures
        final(row)@ == sorted_by_col(old(row)@),
{
    row.sort_by_key(|c| c.col);
}

/// Group cells into screen rows: row `r` holds the cells with `row == r`
/// sorted by column; there is one row per index up to the largest row used.
pub fn build_rows(cells: &[TermCell]) -> (rows: Vec<Row>)
    ensures
        cells@.len() == 0 ==> rows@.len() == 0,
        cells@.len() > 0 ==> exists|i: int|
            0 <= i < cells@.len() && cells@[i].row + 1 == rows@.len(),
        forall|i: int| 0 <= i < cells@.len() ==> cells@[i].row < rows@.len(),
        forall|r: int| 0 <= r < rows@.len() ==> (#[trigger] rows@[r])@ == sorted_by_col(
            cells_in_row(cells@, r),
        ),
{
    let n = cells.len();
    if n == 0 {
        return Vec::new();
    }
    let mut max_row: u16 = 0;
    let mut i: usize = 0;
    while i < n
        invariant
            n == cells@.len(),
            0 < n,
            i <= n,
            forall|j: int| 0 <= j < i ==> cells@[j].row <= max_row,
            max_row == 0 || exists|j: int| 0 <= j < i && cells@[j].row == max_row,
        decreases n - i,
    {
        if cells[i].row > max_row {
            max_row = cells[i].row;
        }
        i = i + 1;
    }
    proof {
        if max_row == 0 {
            assert(cells@[0].row == 0);
        }
    }
    let count: usize = max_row as usize + 1;
    let mut rows: Vec<Row> = Vec::new();
    while rows.len() < count
        invariant
            rows@.len() <= count,
            forall|r: int| 0 <= r < rows@.len() ==> (#[trigger] rows@[r])@ == Seq::<TermCell>::empty(),
        decreases count - rows@.len(),
    {
        rows.push(Vec::new());
    }
    let mut i: usize = 0;
    while i < n
        invariant
            n == cells@.len(),
            i <= n,
            rows@.len() == count,
            forall|j: int| 0 <= j < n ==> cells@[j].row < count,
            forall|r: int| 0 <= r < count ==> (#[trigger] rows@[r])@ == cells_in_row(
                cells@.take(i as int),
                r,
            ),
        decreases n - i,
    {
        let cell = cells[i];
        let r = cell.row as usize;
        let ghost before = rows@;
        rows[r].push(cell);
        proof {
            assert(cells@.take(i + 1).drop_last() =~= cells@.take(i as int));
            assert(cells@.take(i + 1).last() == cell);
            reveal_with_fuel(Seq::filter, 1);
            assert forall|q: int| 0 <= q < count implies (#[trigger] rows@[q])@ == cells_in_row(
                cells@.take(i + 1),
                q,
            ) by {
                if q != r {
                    assert(rows@[q] == before[q]);
                } else {
                    assert(rows@[q]@ == before[q]@.push(cell));
                }
            }
        }
        i = i + 1;
    }
    proof {
        assert(cells@.take(n as int) =~= cells@);
    }
    let mut r: usize = 0;
    while r < count
        invariant
            rows@.len() == count,
            r <= count,
            forall|q: int| 0 <= q < r ==> (#[trigger] rows@[q])@ == sorted_by_col(cells_in_row(cells@, q)),
            forall|q: int| r <= q < count ==> (#[trigger] rows@[q])@ == cells_in_row(cells@, q),
        decreases count - r,
    {
        let ghost before = rows@;
        sort_cells_by_col(&mut rows[r]);
        proof {
            assert forall|q: int| 0 <= q < count && q != r implies rows@[q] == before[q] by {}
        }
        r = r + 1;
    }
    rows
}

// ── Spans ─────────────────────────────────────────────────────────────────────

/// Colour of text drawn on an empty cell.
pub const DEFAULT_FG: [u8; 3] = [235, 219, 178];

/// The cell under the cursor is drawn as this full block (U+2588), in
/// `DEFAULT_FG`, so the cursor shows even on a blank cell.
pub const CURSOR_CHAR: char = '\u{2588}';

/// A piece of text drawn in one colour; `None` draws in the default text
/// attributes.
pub type Span = (String, Option<[u8; 3]>);

/// The character and foreground colour drawn in a column.
pub type Glyph = (char, [u8; 3]);

/// What a span shows: its characters and colour.
pub open spec fn span_view(span: Span) -> (Seq<char>, Option<[u8; 3]>) {
    (span.0@, span.1)
}

pub open spec fn spans_view(spans: Seq<Span>) -> Seq<(Seq<char>, Option<[u8; 3]>)> {
    spans.map_values(|sp: Span| span_view(sp))
}

/// The line break between two rows, drawn in the default attributes.
pub open spec fn newline_span() -> (Seq<char>, Option<[u8; 3]>) {
    (seq!['\n'], None)
}

/// The cursor, given as `(row, col)`, sits on column `col` of row `row_idx`
/// (indices compared as `u16`, that is modulo 2^16).
pub open spec fn is_cursor(row_idx: int, col: int, cursor: (u16, u16)) -> bool {
    row_idx % 0x1_0000 == cursor.0 && col % 0x1_0000 == cursor.1
}

/// Decides `is_cursor`; the `u16` truncation of each index is its value
/// modulo 2^16.
fn cursor_at(row_idx: usize, col: usize, cursor: (u16, u16)) -> (at: bool)
    ensures
        at == is_cursor(row_idx as int, col as int, cursor),
{
    let r = (row_idx % 0x1_0000) as u16;
    let c = (col % 0x1_0000) as u16;
    r == cursor.0 && c == cursor.1
}

/// What is drawn in column `k` of a row: the last cell of the row in that
/// column, or a blank in the default colour.
pub open spec fn drawn_at(row: Seq<TermCell>, k: int) -> Glyph
    decreases row.len(),
{
    if row.len() == 0 {
        (' ', DEFAULT_FG)
    } else if row.last().col == k {
        (row.last().ch, row.last().fg)
    } else {
        drawn_at(row.drop_last(), k)
    }
}

/// The glyphs of a non-empty row, one per column up to the column of its
/// last cell.
pub open spec fn row_glyphs(row: Seq<TermCell>) -> Seq<Glyph> {
    Seq::new((row.last().col + 1) as nat, |k: int| drawn_at(row, k))
}

/// First index at or after `j` that ends the run started at `i`: the end of
/// the row, a different colour, or the cursor.
pub open spec fn run_end(g: Seq<Glyph>, row_idx: int, cursor: (u16, u16), i: int, j: int) -> int
    decreases g.len() - j,
{
    if j >= g.len() || g[j].1 != g[i].1 || is_cursor(row_idx, j, cursor) {
        j
    } else {
        run_end(g, row_idx, cursor, i, j + 1)
    }
}

/// End of the run starting at `i`: the cursor cell is a run of its own.
pub open spec fn run_stop(g: Seq<Glyph>, row_idx: int, cursor: (u16, u16), i: int) -> int {
    if is_cursor(row_idx, i, cursor) {
        i + 1
    } else {
        run_end(g, row_idx, cursor, i, i + 1)
    }
}

pub proof fn lemma_run_end_bounds(g: Seq<Glyph>, row_idx: int, cursor: (u16, u16), i: int, j: int)
    ensures
        run_end(g, row_idx, cursor, i, j) >= j,
        j <= g.len() ==> run_end(g, row_idx, cursor, i, j) <= g.len(),
    decreases g.len() - j,
{
    if !(j >= g.len() || g[j].1 != g[i].1 || is_cursor(row_idx, j, cursor)) {
        lemma_run_end_bounds(g, row_idx, cursor, i, j + 1);
    }
}

/// The span drawn for the run starting at glyph `i`: the cursor cell as a
/// full block in the default colour, any other run as its characters in
/// their colour.
pub open spec fn run_span(g: Seq<Glyph>, row_idx: int, cursor: (u16, u16), i: int) -> (
    Seq<char>,
    Option<[u8; 3]>,
) {
    if is_cursor(row_idx, i, cursor) {
        (seq![CURSOR_CHAR], Some(DEFAULT_FG))
    } else {
        (
            g.subrange(i, run_stop(g, row_idx, cursor, i)).map_values(|x: Glyph| x.0),
            Some(g[i].1),
        )
    }
}

/// The spans of glyphs `i..` of a row: maximal runs of one colour, each
/// drawn in that colour, the cursor cell alone as a full block.
pub open spec fn runs_from(g: Seq<Glyph>, row_idx: int, cursor: (u16, u16), i: int) -> Seq<
    (Seq<char>, Option<[u8; 3]>),
>
    decreases g.len() - i,
{
    if i < 0 || i >= g.len() {
        seq![]
    } else {
        proof {
            lemma_run_end_bounds(g, row_idx, cursor, i, i + 1);
        }
        seq![run_span(g, row_idx, cursor, i)] + runs_from(
            g,
            row_idx,
            cursor,
            run_stop(g, row_idx, cursor, i),
        )
    }
}

/// The spans of row `r`: a lone line break for an empty row, else its runs
/// followed by a line break unless it is the last row.
pub open spec fn row_spans(rows: Seq<Seq<TermCell>>, r: int, cursor: (u16, u16)) -> Seq<
    (Seq<char>, Option<[u8; 3]>),
> {
    if rows[r].len() == 0 {
        seq![newline_span()]
    } else {
        runs_from(row_glyphs(rows[r]), r, cursor, 0) + if r + 1 < rows.len() {
            seq![newline_span()]
        } else {
            seq![]
        }
    }
}

/// All spans of the screen, row after row.
pub open spec fn screen_spans(rows: Seq<Seq<TermCell>>, cursor: (u16, u16)) -> Seq<
    (Seq<char>, Option<[u8; 3]>),
> {
    Seq::new(rows.len(), |r: int| row_spans(rows, r, cursor)).flatten()
}

/// The texts of a span sequence, concatenated.
pub open spec fn spans_text(spans: Seq<(Seq<char>, Option<[u8; 3]>)>) -> Seq<char> {
    spans.map_values(|sp: (Seq<char>, Option<[u8; 3]>)| sp.0).flatten()
}

/// The character shown in column `k`: the cursor block on the cursor cell,
/// else the glyph's own character.
pub open spec fn shown_char(g: Seq<Glyph>, row_idx: int, cursor: (u16, u16), k: int) -> char {
    if is_cursor(row_idx, k, cursor) {
        CURSOR_CHAR
    } else {
        g[k].0
    }
}

/// Grouping a row into runs loses and reorders no character: the runs'
/// texts, concatenated, are the row's shown characters from `i` on. Every
/// glyph of a run has the run's colour, and only the cursor cell, alone in
/// its run, is drawn as the block.
pub proof fn law_runs_keep_text(g: Seq<Glyph>, row_idx: int, cursor: (u16, u16), i: int)
    requires
        0 <= i <= g.len(),
    ensures
        spans_text(runs_from(g, row_idx, cursor, i)) == Seq::new(
            (g.len() - i) as nat,
            |k: int| shown_char(g, row_idx, cursor, i + k),
        ),
        i < g.len() ==> forall|k: int|
            i <= k < run_stop(g, row_idx, cursor, i) ==> #[trigger] g[k].1 == g[i].1,
        i < g.len() ==> forall|k: int|
            i < k < run_stop(g, row_idx, cursor, i) ==> !is_cursor(row_idx, k, cursor),
    decreases g.len() - i,
{
    if i < g.len() {
        let e = run_stop(g, row_idx, cursor, i);
        lemma_run_end_bounds(g, row_idx, cursor, i, i + 1);
        law_runs_keep_text(g, row_idx, cursor, e);
        lemma_run_colour(g, row_idx, cursor, i, i + 1);
        let first = run_span(g, row_idx, cursor, i).0;
        let rest = runs_from(g, row_idx, cursor, e);
        let all = runs_from(g, row_idx, cursor, i);
        assert(all == seq![run_span(g, row_idx, cursor, i)] + rest);
        let texts = all.map_values(|sp: (Seq<char>, Option<[u8; 3]>)| sp.0);
        assert(texts =~= seq![first] + rest.map_values(
            |sp: (Seq<char>, Option<[u8; 3]>)| sp.0,
        ));
        vstd::seq_lib::lemma_flatten_concat(
            seq![first],
            rest.map_values(|sp: (Seq<char>, Option<[u8; 3]>)| sp.0),
        );
        seq![first].lemma_flatten_one_element();
        let shown_rest = Seq::new((g.len() - e) as nat, |k: int| shown_char(g, row_idx, cursor, e + k));
        let shown_all = Seq::new((g.len() - i) as nat, |k: int| shown_char(g, row_idx, cursor, i + k));
        assert forall|k: int| 0 <= k < e - i implies first[k] == shown_all[k] by {
            if !is_cursor(row_idx, i, cursor) {
                assert(first[k] == g[i + k].0);
            }
        }
        assert(first + shown_rest =~= shown_all);
    } else {
        assert(Seq::new((g.len() - i) as nat, |k: int| shown_char(g, row_idx, cursor, i + k))
            =~= Seq::<char>::empty());
    }
}

proof fn lemma_run_colour(g: Seq<Glyph>, row_idx: int, cursor: (u16, u16), i: int, j: int)
    requires
        0 <= i < j,
        forall|k: int| i <= k < j && k < g.len() ==> #[trigger] g[k].1 == g[i].1,
        forall|k: int| i < k < j ==> !is_cursor(row_idx, k, cursor),
    ensures
        forall|k: int|
            i <= k < run_end(g, row_idx, cursor, i, j) && k < g.len() ==> #[trigger] g[k].1
                == g[i].1,
        forall|k: int| i < k < run_end(g, row_idx, cursor, i, j) ==> !is_cursor(row_idx, k, cursor),
    decreases g.len() - j,
{
    if !(j >= g.len() || g[j].1 != g[i].1 || is_cursor(row_idx, j, cursor)) {
        lemma_run_colour(g, row_idx, cursor, i, j + 1);
    }
}

fn newline() -> (sp: Span)
    ensures
        span_view(sp) == newline_span(),
{
    let text = String::from_str("\n");
    proof {
        reveal_strlit("\n");
    }
    (text, None)
}

/// The glyph in each column of a non-empty row; gaps become blanks.
fn row_glyphs_exec(row: &Row) -> (g: Vec<Glyph>)
    requires
        row@.len() > 0,
    ensures
        g@ == row_glyphs(row@),
{
    let n = row.len();
    let width: usize = row[n - 1].col as usize + 1;
    let mut g: Vec<Glyph> = Vec::new();
    while g.len() < width
        invariant
            g@.len() <= width,
            forall|k: int| 0 <= k < g@.len() ==> (#[trigger] g@[k]) == (' ', DEFAULT_FG),
        decreases width - g@.len(),
    {
        g.push((' ', DEFAULT_FG));
    }
    let mut i: usize = 0;
    while i < n
        invariant
            n == row@.len(),
            i <= n,
            g@.len() == width,
            forall|k: int| 0 <= k < width ==> (#[trigger] g@[k]) == drawn_at(row@.take(i as int), k),
        decreases n - i,
    {
        let cell = row[i];
        proof {
            assert(row@.take(i + 1).drop_last() =~= row@.take(i as int));
            assert(row@.take(i + 1).last() == cell);
        }
        if (cell.col as usize) < width {
            g.set(cell.col as usize, (cell.ch, cell.fg));
        }
        i = i + 1;
    }
    proof {
        assert(row@.take(n as int) =~= row@);
        assert(g@ =~= row_glyphs(row@));
    }
    g
}

/// Colour equality, channel by channel.
fn same_rgb(a: &[u8; 3], b: &[u8; 3]) -> (eq: bool)
    ensures
        eq == (*a == *b),
{
    let eq = a[0] == b[0] && a[1] == b[1] && a[2] == b[2];
    proof {
        broadcast use vstd::array::axiom_array_ext_equal;
        if eq {
            assert(*a =~= *b);
        }
    }
    eq
}

/// Append the spans of one non-empty row.
fn push_row_runs(g: &Vec<Glyph>, row_idx: usize, cursor: (u16, u16), out: &mut Vec<Span>)
    ensures
        spans_view(final(out)@) == spans_view(old(out)@) + runs_from(g@, row_idx as int, cursor, 0),
{
    let n = g.len();
    let mut i: usize = 0;
    while i < n
        invariant
            n == g@.len(),
            i <= n,
            spans_view(old(out)@) + runs_from(g@, row_idx as int, cursor, 0) == spans_view(out@)
                + runs_from(g@, row_idx as int, cursor, i as int),
        decreases n - i,
    {
        let (ch, fg) = g[i];
        let at_cursor = cursor_at(row_idx, i, cursor);
        // The cursor cell is a full block in the default colour.
        let color = if at_cursor {
            DEFAULT_FG
        } else {
            fg
        };
        let mut run = String::new();
        push_char(
            &mut run,
            if at_cursor {
                CURSOR_CHAR
            } else {
                ch
            },
        );
        let mut j = i + 1;
        if !at_cursor {
            while j < n
                invariant
                    n == g@.len(),
                    i < j <= n,
                    g@[i as int].1 == fg,
                    run@ == g@.subrange(i as int, j as int).map_values(|x: Glyph| x.0),
                    run_end(g@, row_idx as int, cursor, i as int, i + 1) == run_end(
                        g@,
                        row_idx as int,
                        cursor,
                        i as int,
                        j as int,
                    ),
                ensures
                    i < j <= n,
                    run@ == g@.subrange(i as int, j as int).map_values(|x: Glyph| x.0),
                    run_end(g@, row_idx as int, cursor, i as int, i + 1) == j,
                decreases n - j,
            {
                let (nch, nfg) = g[j];
                let next_cursor = cursor_at(row_idx, j, cursor);
                if same_rgb(&nfg, &fg) && !next_cursor {
                    push_char(&mut run, nch);
                    assert(g@.subrange(i as int, j + 1).map_values(|x: Glyph| x.0) =~= g@.subrange(
                        i as int,
                        j as int,
                    ).map_values(|x: Glyph| x.0).push(nch));
                    j = j + 1;
                } else {
                    break;
                }
            }
        }
        proof {
            lemma_run_end_bounds(g@, row_idx as int, cursor, i as int, i + 1);
            assert(j == run_stop(g@, row_idx as int, cursor, i as int));
            if at_cursor {
                assert(run@ =~= seq![CURSOR_CHAR]);
            } else {
                assert(run@ =~= g@.subrange(i as int, j as int).map_values(|x: Glyph| x.0));
            }
            assert(span_view((run, Some(color))) == run_span(g@, row_idx as int, cursor, i as int));
        }
        let ghost before = out@;
        out.push((run, Some(color)));
        proof {
            assert(spans_view(out@) =~= spans_view(before).push(span_view((run, Some(color)))));
            let tail = runs_from(g@, row_idx as int, cursor, j as int);
            assert(runs_from(g@, row_idx as int, cursor, i as int) =~= seq![
                span_view((run, Some(color))),
            ] + tail);
            assert(spans_view(before) + (seq![span_view((run, Some(color)))] + tail)
                =~= spans_view(before).push(span_view((run, Some(color)))) + tail);
        }
        i = j;
    }
}

/// Build `(text, colour)` spans for the whole screen.
///
/// Groups consecutive same-coloured cells into a single span so we minimise
/// the number of spans without sacrificing per-cell colour accuracy.
pub fn build_spans(rows: &[Row], cursor: (u16, u16)) -> (spans: Vec<Span>)
    ensures
        spans_view(spans@) == screen_spans(rows@.map_values(|r: Row| r@), cursor),
{
    let ghost rv = rows@.map_values(|r: Row| r@);
    let ghost per_row = Seq::new(rv.len(), |r: int| row_spans(rv, r, cursor));
    let mut spans: Vec<Span> = Vec::new();
    let n = rows.len();
    let mut row_idx: usize = 0;
    while row_idx < n
        invariant
            n == rows@.len(),
            rv == rows@.map_values(|r: Row| r@),
            per_row == Seq::new(rv.len(), |r: int| row_spans(rv, r, cursor)),
            row_idx <= n,
            spans_view(spans@) == per_row.take(row_idx as int).flatten(),
        decreases n - row_idx,
    {
        let ghost before = spans@;
        let row = &rows[row_idx];
        if row.len() == 0 {
            spans.push(newline());
            proof {
                assert(spans_view(spans@) =~= spans_view(before) + seq![newline_span()]);
            }
        } else {
            let g = row_glyphs_exec(row);
            push_row_runs(&g, row_idx, cursor, &mut spans);
            if row_idx + 1 < n {
                let ghost mid = spans@;
                spans.push(newline());
                proof {
                    assert(spans_view(spans@) =~= spans_view(mid) + seq![newline_span()]);
                }
            }
            proof {
                assert(spans_view(spans@) =~= spans_view(before) + per_row[row_idx as int]);
            }
        }
        proof {
            assert(per_row.take(row_idx + 1) =~= per_row.take(row_idx as int).push(
                per_row[row_idx as int],
            ));
            per_row.take(row_idx as int).lemma_flatten_push(per_row[row_idx as int]);
        }
        row_idx = row_idx + 1;
    }
    proof {
        assert(per_row.take(n as int) =~= per_row);
    }
    spans
}

} // verus!

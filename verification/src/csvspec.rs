//! The table dialect at the specification level.
//!
//! A payload is a header line naming the columns, then one line per row,
//! every line terminated by a line feed. Fields are separated by commas and
//! carry no quoting, so a field never holds a comma or a line feed. An empty
//! field is a null; a column whose every non-empty field is a canonical
//! decimal integer is an integer column; any other column is text.

use vstd::prelude::*;
use crate::error::ErrorKind;
use crate::numtext::int_repr;
use crate::numtext::int_field_val;
use crate::numtext::is_int_field;
use crate::numtext::pow10;
use crate::numtext::lemma_int_repr_ok;
use crate::numtext::lemma_int_field_bytes;
use crate::numtext::lemma_int_field_range;
use crate::numtext::lemma_digits_val_bounds;
use crate::numtext::lemma_pow10_mono;
use crate::table::CellModel;
use crate::table::ColumnModel;
use crate::table::TableModel;
use crate::table::table_rows;
use crate::table::table_wf;
use crate::table::col_no_text;
use crate::table::col_no_int;

verus! {

/// The field separator, an ASCII comma.
pub const FIELD_SEP: u8 = 44;

/// The line terminator, an ASCII line feed.
pub const LINE_SEP: u8 = 10;

/// `s` holds no occurrence of `sep`.
pub open spec fn sep_free(s: Seq<u8>, sep: u8) -> bool {
    forall|i: int| 0 <= i < s.len() ==> s[i] != sep
}

/// A field or name the dialect can carry verbatim: free of both separators.
pub open spec fn field_free(s: Seq<u8>) -> bool {
    sep_free(s, FIELD_SEP) && sep_free(s, LINE_SEP)
}

/// The position of the first `sep` in `s`, if any.
pub open spec fn first_at(s: Seq<u8>, sep: u8) -> Option<int>
    decreases s.len(),
{
    if s.len() == 0 {
        Option::None
    } else if s[0] == sep {
        Option::Some(0)
    } else {
        match first_at(s.skip(1), sep) {
            Option::Some(i) => Option::Some(i + 1),
            Option::None => Option::None,
        }
    }
}

pub proof fn lemma_first_at(s: Seq<u8>, sep: u8)
    ensures
        match first_at(s, sep) {
            Option::Some(i) => 0 <= i < s.len() && s[i] == sep && (forall|j: int|
                0 <= j < i ==> s[j] != sep),
            Option::None => sep_free(s, sep),
        },
    decreases s.len(),
{
    if s.len() == 0 {
    } else if s[0] == sep {
    } else {
        let t = s.skip(1);
        lemma_first_at(t, sep);
        match first_at(t, sep) {
            Option::Some(i) => {
                assert(t[i] == s[i + 1]);
                assert forall|j: int| 0 <= j < i + 1 implies s[j] != sep by {
                    if j > 0 {
                        assert(s[j] == t[j - 1]);
                    }
                }
            }
            Option::None => {
                assert forall|j: int| 0 <= j < s.len() implies s[j] != sep by {
                    if j > 0 {
                        assert(s[j] == t[j - 1]);
                    }
                }
            }
        }
    }
}

/// Splits `s` into the chunks that `sep` terminates. `None` when `s` is
/// non-empty yet does not end with `sep`.
pub open spec fn split_term(s: Seq<u8>, sep: u8) -> Option<Seq<Seq<u8>>>
    decreases s.len(),
{
    if s.len() == 0 {
        Option::Some(Seq::empty())
    } else {
        match first_at(s, sep) {
            Option::None => Option::None,
            Option::Some(i) => if 0 <= i < s.len() {
                match split_term(s.skip(i + 1), sep) {
                    Option::None => Option::None,
                    Option::Some(rest) => Option::Some(seq![s.take(i)] + rest),
                }
            } else {
                Option::None
            },
        }
    }
}

/// Splits `s` into the chunks that `sep` separates: always one more chunk
/// than there are separators.
pub open spec fn split_sep(s: Seq<u8>, sep: u8) -> Seq<Seq<u8>>
    decreases s.len(),
{
    match first_at(s, sep) {
        Option::None => seq![s],
        Option::Some(i) => if 0 <= i < s.len() {
            seq![s.take(i)] + split_sep(s.skip(i + 1), sep)
        } else {
            seq![s]
        },
    }
}

/// Joins chunks, terminating each with `sep`.
pub open spec fn join_term(chunks: Seq<Seq<u8>>, sep: u8) -> Seq<u8>
    decreases chunks.len(),
{
    if chunks.len() == 0 {
        Seq::empty()
    } else {
        chunks[0] + seq![sep] + join_term(chunks.skip(1), sep)
    }
}

/// Joins chunks, separating consecutive chunks with `sep`.
pub open spec fn join_sep(chunks: Seq<Seq<u8>>, sep: u8) -> Seq<u8>
    decreases chunks.len(),
{
    if chunks.len() == 0 {
        Seq::empty()
    } else if chunks.len() == 1 {
        chunks[0]
    } else {
        chunks[0] + seq![sep] + join_sep(chunks.skip(1), sep)
    }
}

/// Appending one chunk to a terminated join appends the chunk and one `sep`.
pub proof fn lemma_join_term_snoc(chunks: Seq<Seq<u8>>, l: Seq<u8>, sep: u8)
    ensures
        join_term(chunks.push(l), sep) == join_term(chunks, sep) + l + seq![sep],
    decreases chunks.len(),
{
    let p = chunks.push(l);
    assert(join_term(Seq::<Seq<u8>>::empty(), sep) == Seq::<u8>::empty());
    if chunks.len() == 0 {
        assert(p[0] == l);
        assert(p.skip(1) =~= Seq::<Seq<u8>>::empty());
        assert(join_term(p.skip(1), sep) == Seq::<u8>::empty());
        assert(join_term(p, sep) == p[0] + seq![sep] + join_term(p.skip(1), sep));
        assert(join_term(chunks, sep) == Seq::<u8>::empty());
        assert(join_term(p, sep) =~= join_term(chunks, sep) + l + seq![sep]);
    } else {
        lemma_join_term_snoc(chunks.skip(1), l, sep);
        assert(p.skip(1) =~= chunks.skip(1).push(l));
        assert(p[0] == chunks[0]);
        assert(join_term(p, sep) =~= join_term(chunks, sep) + l + seq![sep]);
    }
}

/// Appending one chunk to a separated join appends one `sep` and the chunk,
/// unless the join was empty of chunks.
pub proof fn lemma_join_sep_snoc(chunks: Seq<Seq<u8>>, c: Seq<u8>, sep: u8)
    requires
        chunks.len() >= 1,
    ensures
        join_sep(chunks.push(c), sep) == join_sep(chunks, sep) + seq![sep] + c,
    decreases chunks.len(),
{
    let p = chunks.push(c);
    assert(p[0] == chunks[0]);
    if chunks.len() == 1 {
        assert(p.skip(1) =~= seq![c]);
        assert(join_sep(p.skip(1), sep) == c);
        assert(join_sep(p, sep) =~= join_sep(chunks, sep) + seq![sep] + c);
    } else {
        lemma_join_sep_snoc(chunks.skip(1), c, sep);
        assert(p.skip(1) =~= chunks.skip(1).push(c));
        assert(join_sep(p, sep) =~= join_sep(chunks, sep) + seq![sep] + c);
    }
}

/// The first `sep` in `a + [sep] + b` is right after `a`, when `a` is free
/// of `sep`.
pub proof fn lemma_first_at_concat(a: Seq<u8>, b: Seq<u8>, sep: u8)
    requires
        sep_free(a, sep),
    ensures
        first_at(a + seq![sep] + b, sep) == Option::Some(a.len() as int),
    decreases a.len(),
{
    let s = a + seq![sep] + b;
    if a.len() == 0 {
        assert(s[0] == sep);
    } else {
        assert(s[0] == a[0]);
        assert(a[0] != sep);
        lemma_first_at_concat(a.skip(1), b, sep);
        assert(s.skip(1) =~= a.skip(1) + seq![sep] + b);
    }
}

/// Splitting a terminated join of `sep`-free chunks gives the chunks back.
pub proof fn lemma_split_term_inv(chunks: Seq<Seq<u8>>, sep: u8)
    requires
        forall|k: int| 0 <= k < chunks.len() ==> sep_free(#[trigger] chunks[k], sep),
    ensures
        split_term(join_term(chunks, sep), sep) == Option::Some(chunks),
    decreases chunks.len(),
{
    if chunks.len() == 0 {
        assert(join_term(chunks, sep) =~= Seq::<u8>::empty());
        assert(split_term(join_term(chunks, sep), sep) == Option::Some(Seq::<Seq<u8>>::empty()));
        assert(chunks =~= Seq::<Seq<u8>>::empty());
    } else {
        let c0 = chunks[0];
        let rest = chunks.skip(1);
        let s = join_term(chunks, sep);
        assert(s == c0 + seq![sep] + join_term(rest, sep));
        lemma_first_at_concat(c0, join_term(rest, sep), sep);
        assert(s.len() == c0.len() + 1 + join_term(rest, sep).len());
        assert(s.take(c0.len() as int) =~= c0);
        assert(s.skip(c0.len() as int + 1) =~= join_term(rest, sep));
        assert(forall|k: int| 0 <= k < rest.len() ==> rest[k] == chunks[k + 1]);
        lemma_split_term_inv(rest, sep);
        assert(seq![c0] + rest =~= chunks);
    }
}

/// A non-empty byte string not ending in `sep` does not split.
pub proof fn lemma_split_term_none(s: Seq<u8>, sep: u8)
    requires
        s.len() > 0,
        s.last() != sep,
    ensures
        split_term(s, sep) is None,
    decreases s.len(),
{
    lemma_first_at(s, sep);
    match first_at(s, sep) {
        Option::None => {
        }
        Option::Some(i) => {
            assert(s[i] == sep);
            assert(i != s.len() - 1);
            let t = s.skip(i + 1);
            assert(t.len() > 0);
            assert(t.last() == s.last());
            lemma_split_term_none(t, sep);
        }
    }
}

/// Splitting a terminated join: each chunk is `sep`-free and the join is
/// reassembled exactly.
pub proof fn lemma_split_term_props(s: Seq<u8>, sep: u8)
    requires
        split_term(s, sep) is Some,
    ensures
        ({
            let chunks = split_term(s, sep)->Some_0;
            &&& forall|k: int| 0 <= k < chunks.len() ==> sep_free(#[trigger] chunks[k], sep)
            &&& join_term(chunks, sep) == s
        }),
    decreases s.len(),
{
    if s.len() == 0 {
        assert(join_term(Seq::<Seq<u8>>::empty(), sep) =~= s);
    } else {
        lemma_first_at(s, sep);
        let i = first_at(s, sep)->Some_0;
        let c0 = s.take(i);
        let t = s.skip(i + 1);
        lemma_split_term_props(t, sep);
        let rest = split_term(t, sep)->Some_0;
        let chunks = split_term(s, sep)->Some_0;
        assert(chunks == seq![c0] + rest);
        assert(forall|j: int| 0 <= j < i ==> c0[j] == s[j]);
        assert(sep_free(c0, sep));
        assert(forall|k: int| 0 <= k < rest.len() ==> chunks[k + 1] == rest[k]);
        assert(forall|k: int| 1 <= k < chunks.len() ==> chunks[k] == rest[k - 1]);
        assert(chunks[0] == c0);
        assert(chunks.skip(1) =~= rest);
        assert(join_term(chunks, sep) == c0 + seq![sep] + join_term(rest, sep));
        assert(c0 + seq![sep] + t =~= s);
    }
}

/// Splitting a separated join of `sep`-free chunks gives the chunks back.
pub proof fn lemma_split_sep_inv(chunks: Seq<Seq<u8>>, sep: u8)
    requires
        chunks.len() >= 1,
        forall|k: int| 0 <= k < chunks.len() ==> sep_free(#[trigger] chunks[k], sep),
    ensures
        split_sep(join_sep(chunks, sep), sep) == chunks,
    decreases chunks.len(),
{
    let s = join_sep(chunks, sep);
    if chunks.len() == 1 {
        assert(s == chunks[0]);
        lemma_first_at(s, sep);
        assert(first_at(s, sep) is None);
        assert(split_sep(s, sep) =~= chunks);
    } else {
        let c0 = chunks[0];
        let rest = chunks.skip(1);
        assert(forall|k: int| 0 <= k < rest.len() ==> rest[k] == chunks[k + 1]);
        assert(s == c0 + seq![sep] + join_sep(rest, sep));
        lemma_first_at_concat(c0, join_sep(rest, sep), sep);
        assert(s.take(c0.len() as int) =~= c0);
        assert(s.skip(c0.len() as int + 1) =~= join_sep(rest, sep));
        lemma_split_sep_inv(rest, sep);
        assert(seq![c0] + rest =~= chunks);
    }
}

/// Splitting by `sep`: the chunks are `sep`-free, there is at least one,
/// and the separated join reassembles the input.
pub proof fn lemma_split_sep_props(s: Seq<u8>, sep: u8)
    ensures
        ({
            let chunks = split_sep(s, sep);
            &&& chunks.len() >= 1
            &&& forall|k: int| 0 <= k < chunks.len() ==> sep_free(#[trigger] chunks[k], sep)
            &&& join_sep(chunks, sep) == s
        }),
    decreases s.len(),
{
    lemma_first_at(s, sep);
    match first_at(s, sep) {
        Option::None => {
            assert(split_sep(s, sep) == seq![s]);
            assert(join_sep(seq![s], sep) == s);
        }
        Option::Some(i) => {
            let c0 = s.take(i);
            let t = s.skip(i + 1);
            lemma_split_sep_props(t, sep);
            let rest = split_sep(t, sep);
            let chunks = split_sep(s, sep);
            assert(chunks == seq![c0] + rest);
            assert(forall|j: int| 0 <= j < i ==> c0[j] == s[j]);
            assert(sep_free(c0, sep));
            assert(forall|k: int| 0 <= k < rest.len() ==> chunks[k + 1] == rest[k]);
            assert(chunks[0] == c0);
            assert(chunks.skip(1) =~= rest);
            assert(rest.len() >= 1);
            assert(join_sep(chunks, sep) == c0 + seq![sep] + join_sep(rest, sep));
            assert(c0 + seq![sep] + t =~= s);
        }
    }
}

/// A byte other than the separators of a separated join occurs in the join
/// exactly when it occurs in a chunk (here: only the direction needed).
pub proof fn lemma_join_sep_free_rev(chunks: Seq<Seq<u8>>, sep: u8, b: u8)
    requires
        sep_free(join_sep(chunks, sep), b),
    ensures
        forall|k: int| 0 <= k < chunks.len() ==> sep_free(#[trigger] chunks[k], b),
    decreases chunks.len(),
{
    let s = join_sep(chunks, sep);
    if chunks.len() == 0 {
    } else if chunks.len() == 1 {
        assert(s == chunks[0]);
    } else {
        let rest = chunks.skip(1);
        let tail = join_sep(rest, sep);
        assert(s == chunks[0] + seq![sep] + tail);
        assert forall|j: int| 0 <= j < chunks[0].len() implies chunks[0][j] != b by {
            assert(chunks[0][j] == s[j]);
            assert(s[j] != b);
        }
        let off = chunks[0].len() as int + 1;
        assert forall|j: int| 0 <= j < tail.len() implies tail[j] != b by {
            assert(tail[j] == s[j + off]);
            assert(s[j + off] != b);
        }
        assert(sep_free(tail, b));
        lemma_join_sep_free_rev(rest, sep, b);
        assert forall|k: int| 0 <= k < chunks.len() implies sep_free(#[trigger] chunks[k], b) by {
            if k > 0 {
                assert(chunks[k] == rest[k - 1]);
                assert(sep_free(rest[k - 1], b));
            }
        }
    }
}

/// A separated join of chunks free of `b` is free of `b`, when `b` is not
/// the separator.
pub proof fn lemma_join_sep_free(chunks: Seq<Seq<u8>>, sep: u8, b: u8)
    requires
        b != sep,
        forall|k: int| 0 <= k < chunks.len() ==> sep_free(#[trigger] chunks[k], b),
    ensures
        sep_free(join_sep(chunks, sep), b),
    decreases chunks.len(),
{
    let s = join_sep(chunks, sep);
    if chunks.len() == 0 {
    } else if chunks.len() == 1 {
        assert(s == chunks[0]);
    } else {
        let rest = chunks.skip(1);
        assert(forall|k: int| 0 <= k < rest.len() ==> rest[k] == chunks[k + 1]);
        lemma_join_sep_free(rest, sep, b);
        let tail = join_sep(rest, sep);
        assert(s == chunks[0] + seq![sep] + tail);
        assert forall|i: int| 0 <= i < s.len() implies s[i] != b by {
            if i < chunks[0].len() {
                assert(s[i] == chunks[0][i]);
            } else if i == chunks[0].len() {
                assert(s[i] == sep);
            } else {
                assert(s[i] == tail[i - chunks[0].len() - 1]);
            }
        }
    }
}

/// The field a cell encodes to: nothing for null, canonical decimal digits
/// for an integer, the bytes themselves for text.
pub open spec fn cell_field(c: CellModel) -> Seq<u8> {
    match c {
        CellModel::Null => Seq::empty(),
        CellModel::Int(v) => int_repr(v as int),
        CellModel::Text(s) => s,
    }
}

/// Whether the dialect can carry this cell: any null, an integer within the
/// 18-digit range, or non-empty text free of both separators.
pub open spec fn cell_encodable(c: CellModel) -> bool {
    match c {
        CellModel::Null => true,
        CellModel::Int(v) => -pow10(18) < v < pow10(18),
        CellModel::Text(s) => s.len() > 0 && field_free(s),
    }
}

/// Whether the dialect can carry this column name.
pub open spec fn name_encodable(n: Seq<u8>) -> bool {
    n.len() > 0 && field_free(n)
}

/// Whether the dialect can carry every name and cell of the table.
pub open spec fn table_encodable(m: TableModel) -> bool {
    forall|c: int|
        0 <= c < m.cols.len() ==> (name_encodable((#[trigger] m.cols[c]).name) && forall|r: int|
            0 <= r < m.cols[c].cells.len() ==> cell_encodable(#[trigger] m.cols[c].cells[r]))
}

pub open spec fn header_names(m: TableModel) -> Seq<Seq<u8>> {
    Seq::new(m.cols.len(), |c: int| m.cols[c].name)
}

pub open spec fn row_fields(m: TableModel, r: int) -> Seq<Seq<u8>> {
    Seq::new(m.cols.len(), |c: int| cell_field(m.cols[c].cells[r]))
}

/// The lines of the encoding: the header, then one line per row.
pub open spec fn all_lines(m: TableModel) -> Seq<Seq<u8>> {
    seq![join_sep(header_names(m), FIELD_SEP)] + Seq::new(
        table_rows(m),
        |r: int| join_sep(row_fields(m, r), FIELD_SEP),
    )
}

/// What encoding a table yields: `EmptySchema` on zero columns,
/// `UnsupportedType` when some name or value has no representation in the
/// dialect, and otherwise exactly the joined lines.
pub open spec fn spec_encode_csv(m: TableModel) -> Result<Seq<u8>, ErrorKind> {
    if m.cols.len() == 0 {
        Err(ErrorKind::EmptySchema)
    } else if !table_encodable(m) {
        Err(ErrorKind::UnsupportedType)
    } else {
        Ok(join_term(all_lines(m), LINE_SEP))
    }
}

/// A usable header: every name non-empty, all names distinct.
pub open spec fn names_ok(names: Seq<Seq<u8>>) -> bool {
    &&& forall|i: int| 0 <= i < names.len() ==> (#[trigger] names[i]).len() > 0
    &&& forall|i: int, j: int| 0 <= i < j < names.len() ==> names[i] != names[j]
}

/// Column `c` of a row-major field grid.
pub open spec fn col_fields(grid: Seq<Seq<Seq<u8>>>, c: int) -> Seq<Seq<u8>> {
    Seq::new(grid.len(), |r: int| grid[r][c])
}

/// Whether a column of fields reads as an integer column: every field is
/// empty or int-shaped.
pub open spec fn fields_int(fs: Seq<Seq<u8>>) -> bool {
    forall|i: int| 0 <= i < fs.len() ==> ((#[trigger] fs[i]).len() == 0 || is_int_field(fs[i]))
}

/// The cell one field decodes to, given the column's inferred type.
pub open spec fn field_cell(f: Seq<u8>, as_int: bool) -> CellModel {
    if f.len() == 0 {
        CellModel::Null
    } else if as_int {
        CellModel::Int(int_field_val(f) as i64)
    } else {
        CellModel::Text(f)
    }
}

/// The column decoded from one name and one column of fields.
pub open spec fn decoded_col(name: Seq<u8>, fs: Seq<Seq<u8>>) -> ColumnModel {
    ColumnModel { name, cells: Seq::new(fs.len(), |r: int| field_cell(fs[r], fields_int(fs))) }
}

/// Every row has exactly one field per declared column.
pub open spec fn grid_ok(names: Seq<Seq<u8>>, grid: Seq<Seq<Seq<u8>>>) -> bool {
    forall|r: int| 0 <= r < grid.len() ==> (#[trigger] grid[r]).len() == names.len()
}

/// What decoding a payload yields: `EmptySchema` on an empty payload;
/// `CorruptPayload` on an unterminated final line, an empty or duplicated
/// column name, or a row of the wrong width; otherwise the table, with
/// each column's type inferred from its fields.
pub open spec fn spec_decode_csv(bytes: Seq<u8>) -> Result<TableModel, ErrorKind> {
    if bytes.len() == 0 {
        Err(ErrorKind::EmptySchema)
    } else {
        match split_term(bytes, LINE_SEP) {
            Option::None => Err(ErrorKind::CorruptPayload),
            Option::Some(lines) => if lines.len() == 0 {
                Err(ErrorKind::CorruptPayload)
            } else {
                let names = split_sep(lines[0], FIELD_SEP);
                let grid = Seq::new((lines.len() - 1) as nat, |r: int| split_sep(lines[r + 1], FIELD_SEP));
                if !names_ok(names) {
                    Err(ErrorKind::CorruptPayload)
                } else if !grid_ok(names, grid) {
                    Err(ErrorKind::CorruptPayload)
                } else {
                    Ok(
                        TableModel {
                            cols: Seq::new(
                                names.len(),
                                |c: int| decoded_col(names[c], col_fields(grid, c)),
                            ),
                        },
                    )
                }
            },
        }
    }
}

/// A column in the form decoding produces: an integer column carries no
/// text, and a text column either is all null or holds a witness text cell
/// that does not read as an integer (otherwise decoding would have made the
/// column an integer column).
pub open spec fn col_canonical(c: ColumnModel) -> bool {
    col_no_text(c) || (col_no_int(c) && exists|i: int|
        0 <= i < c.cells.len() && ((#[trigger] c.cells[i]) matches CellModel::Text(s)
            && !is_int_field(s)))
}

pub open spec fn table_canonical(m: TableModel) -> bool {
    forall|c: int| 0 <= c < m.cols.len() ==> col_canonical(#[trigger] m.cols[c])
}

/// Whatever table decoding yields is well-formed, canonical, non-empty of
/// columns, and encodable.
pub proof fn lemma_decode_props(bytes: Seq<u8>)
    requires
        spec_decode_csv(bytes) is Ok,
    ensures
        ({
            let m = spec_decode_csv(bytes)->Ok_0;
            &&& table_wf(m)
            &&& table_canonical(m)
            &&& table_encodable(m)
            &&& m.cols.len() > 0
        }),
{
    let lines = split_term(bytes, LINE_SEP)->Some_0;
    lemma_split_term_props(bytes, LINE_SEP);
    let names = split_sep(lines[0], FIELD_SEP);
    lemma_split_sep_props(lines[0], FIELD_SEP);
    lemma_join_sep_free_rev(names, FIELD_SEP, LINE_SEP);
    let grid = Seq::new((lines.len() - 1) as nat, |r: int| split_sep(lines[r + 1], FIELD_SEP));
    assert forall|r: int| #![trigger grid[r]] 0 <= r < grid.len() implies {
        &&& forall|k: int| 0 <= k < grid[r].len() ==> sep_free(#[trigger] grid[r][k], FIELD_SEP)
        &&& forall|k: int| 0 <= k < grid[r].len() ==> sep_free(#[trigger] grid[r][k], LINE_SEP)
    } by {
        lemma_split_sep_props(lines[r + 1], FIELD_SEP);
        lemma_join_sep_free_rev(grid[r], FIELD_SEP, LINE_SEP);
    }
    let m = spec_decode_csv(bytes)->Ok_0;
    assert(m.cols.len() == names.len());
    assert(names_ok(names));
    assert(grid_ok(names, grid));
    assert forall|c: int| 0 <= c < m.cols.len() implies {
        &&& (#[trigger] m.cols[c]).name.len() > 0
        &&& m.cols[c].cells.len() == grid.len()
        &&& (col_no_text(m.cols[c]) || col_no_int(m.cols[c]))
        &&& col_canonical(m.cols[c])
        &&& name_encodable(m.cols[c].name)
        &&& forall|r: int| 0 <= r < m.cols[c].cells.len() ==> cell_encodable(
            #[trigger] m.cols[c].cells[r],
        )
    } by {
        let fs = col_fields(grid, c);
        assert(m.cols[c] == decoded_col(names[c], fs));
        assert(m.cols[c].name == names[c]);
        assert(m.cols[c].cells.len() == fs.len() == grid.len());
        assert forall|r: int| 0 <= r < fs.len() implies field_free(#[trigger] fs[r]) by {
            assert(fs[r] == grid[r][c]);
        }
        if fields_int(fs) {
            assert forall|r: int| 0 <= r < m.cols[c].cells.len() implies !((
            #[trigger] m.cols[c].cells[r]) is Text) && cell_encodable(m.cols[c].cells[r]) by {
                assert(m.cols[c].cells[r] == field_cell(fs[r], true));
                if fs[r].len() > 0 {
                    assert(is_int_field(fs[r]));
                    lemma_int_field_range(fs[r]);
                }
            }
            assert(col_no_text(m.cols[c]));
        } else {
            let bad = choose|i: int|
                0 <= i < fs.len() && !((#[trigger] fs[i]).len() == 0 || is_int_field(fs[i]));
            assert forall|r: int| 0 <= r < m.cols[c].cells.len() implies !((
            #[trigger] m.cols[c].cells[r]) is Int) && cell_encodable(m.cols[c].cells[r]) by {
                assert(m.cols[c].cells[r] == field_cell(fs[r], false));
            }
            assert(col_no_int(m.cols[c]));
            assert(m.cols[c].cells[bad] == field_cell(fs[bad], false));
            assert(m.cols[c].cells[bad] matches CellModel::Text(s) && !is_int_field(s));
            assert(col_canonical(m.cols[c]));
        }
    }
    assert forall|i: int, j: int| 0 <= i < j < m.cols.len() implies (#[trigger] m.cols[i]).name
        != (#[trigger] m.cols[j]).name by {
        assert(m.cols[i].name == names[i] && m.cols[j].name == names[j]);
    }
    assert(table_rows(m) == grid.len());
    assert(table_wf(m));
}

/// Encoding a well-formed canonical encodable table and decoding the bytes
/// gives the table back.
pub proof fn lemma_encode_decode_id(m: TableModel)
    requires
        m.cols.len() > 0,
        table_wf(m),
        table_canonical(m),
        table_encodable(m),
    ensures
        spec_encode_csv(m) is Ok,
        spec_decode_csv(spec_encode_csv(m)->Ok_0) == Result::<TableModel, ErrorKind>::Ok(m),
{
    let ncols = m.cols.len() as int;
    let nrows = table_rows(m) as int;
    let names = header_names(m);
    let lines = all_lines(m);
    let b = join_term(lines, LINE_SEP);
    assert(spec_encode_csv(m) == Result::<Seq<u8>, ErrorKind>::Ok(b));

    // Every name and field is free of both separators.
    assert forall|c: int| 0 <= c < ncols implies field_free(#[trigger] names[c]) by {
        assert(names[c] == m.cols[c].name);
    }
    assert forall|r: int, c: int| 0 <= r < nrows && 0 <= c < ncols implies field_free(
        #[trigger] row_fields(m, r)[c],
    ) by {
        let cell = m.cols[c].cells[r];
        assert(row_fields(m, r)[c] == cell_field(cell));
        assert(cell_encodable(cell));
        match cell {
            CellModel::Null => {}
            CellModel::Int(v) => {
                lemma_int_repr_ok(v as int);
                lemma_int_field_bytes(int_repr(v as int));
            }
            CellModel::Text(_) => {}
        }
    }

    // Every line is free of the line separator.
    assert forall|l: int| 0 <= l < lines.len() implies sep_free(#[trigger] lines[l], LINE_SEP) by {
        if l == 0 {
            assert(lines[0] == join_sep(names, FIELD_SEP));
            lemma_join_sep_free(names, FIELD_SEP, LINE_SEP);
        } else {
            let r = l - 1;
            assert(lines[l] == join_sep(row_fields(m, r), FIELD_SEP));
            lemma_join_sep_free(row_fields(m, r), FIELD_SEP, LINE_SEP);
        }
    }
    lemma_split_term_inv(lines, LINE_SEP);
    assert(split_term(b, LINE_SEP) == Option::Some(lines));
    assert(b.len() > 0) by {
        assert(lines.len() >= 1);
        assert(b == lines[0] + seq![LINE_SEP] + join_term(lines.skip(1), LINE_SEP));
    }
    assert(lines.len() == 1 + nrows);

    // The header splits back into the names.
    lemma_split_sep_inv(names, FIELD_SEP);
    assert(split_sep(lines[0], FIELD_SEP) == names);
    assert forall|i: int| 0 <= i < names.len() implies (#[trigger] names[i]).len() > 0 by {
        assert(names[i] == m.cols[i].name);
    }
    assert forall|i: int, j: int| 0 <= i < j < names.len() implies names[i] != names[j] by {
        assert(names[i] == m.cols[i].name && names[j] == m.cols[j].name);
    }
    assert(names_ok(names));

    // Each row line splits back into its fields.
    let grid = Seq::new((lines.len() - 1) as nat, |r: int| split_sep(lines[r + 1], FIELD_SEP));
    assert forall|r: int| 0 <= r < nrows implies #[trigger] grid[r] == row_fields(m, r) by {
        assert(lines[r + 1] == join_sep(row_fields(m, r), FIELD_SEP));
        lemma_split_sep_inv(row_fields(m, r), FIELD_SEP);
    }
    assert(grid_ok(names, grid));

    // Each decoded column equals the corresponding input column.
    let dec = spec_decode_csv(b)->Ok_0;
    assert(dec.cols.len() == ncols);
    assert forall|c: int| 0 <= c < ncols implies #[trigger] dec.cols[c] == m.cols[c] by {
        let fs = col_fields(grid, c);
        assert(dec.cols[c] == decoded_col(names[c], fs));
        assert(fs.len() == nrows);
        assert forall|r: int| 0 <= r < nrows implies #[trigger] fs[r] == cell_field(
            m.cols[c].cells[r],
        ) by {
            assert(fs[r] == grid[r][c]);
            assert(grid[r] == row_fields(m, r));
        }
        assert(col_canonical(m.cols[c]));
        if col_no_text(m.cols[c]) {
            assert forall|r: int| 0 <= r < nrows implies (#[trigger] fs[r]).len() == 0
                || is_int_field(fs[r]) by {
                let cell = m.cols[c].cells[r];
                assert(!(cell is Text));
                match cell {
                    CellModel::Null => {}
                    CellModel::Int(v) => {
                        assert(cell_encodable(cell));
                        lemma_int_repr_ok(v as int);
                    }
                    CellModel::Text(_) => {}
                }
            }
            assert(fields_int(fs));
            assert forall|r: int| 0 <= r < nrows implies decoded_col(names[c], fs).cells[r]
                == m.cols[c].cells[r] by {
                let cell = m.cols[c].cells[r];
                match cell {
                    CellModel::Null => {
                        assert(fs[r].len() == 0);
                    }
                    CellModel::Int(v) => {
                        assert(cell_encodable(cell));
                        lemma_int_repr_ok(v as int);
                        assert(fs[r] == int_repr(v as int));
                        assert(fs[r].len() > 0);
                        assert(int_field_val(fs[r]) == v as int);
                    }
                    CellModel::Text(_) => {}
                }
            }
            assert(decoded_col(names[c], fs).cells =~= m.cols[c].cells);
        } else {
            assert(col_no_int(m.cols[c]));
            let w = choose|i: int|
                0 <= i < m.cols[c].cells.len() && ((#[trigger] m.cols[c].cells[i]) matches
                    CellModel::Text(s) && !is_int_field(s));
            assert(m.cols[c].cells.len() == nrows);
            assert(fs[w] == cell_field(m.cols[c].cells[w]));
            assert(cell_encodable(m.cols[c].cells[w]));
            assert(fs[w].len() > 0 && !is_int_field(fs[w]));
            assert(!fields_int(fs));
            assert forall|r: int| 0 <= r < nrows implies decoded_col(names[c], fs).cells[r]
                == m.cols[c].cells[r] by {
                let cell = m.cols[c].cells[r];
                assert(cell_encodable(cell));
                match cell {
                    CellModel::Null => {
                        assert(fs[r].len() == 0);
                    }
                    CellModel::Int(_) => {
                        assert(false);
                    }
                    CellModel::Text(s) => {
                        assert(fs[r] == s && s.len() > 0);
                    }
                }
            }
            assert(decoded_col(names[c], fs).cells =~= m.cols[c].cells);
        }
        assert(dec.cols[c].name == m.cols[c].name);
        assert(dec.cols[c] =~~= m.cols[c]);
    }
    assert(dec.cols =~= m.cols);
    assert(dec =~~= m);
}

/// The round trip: any table decoding produces, encoding re-emits as bytes
/// that decode to the same table.
pub proof fn lemma_decode_encode_round_trip(bytes: Seq<u8>)
    requires
        spec_decode_csv(bytes) is Ok,
    ensures
        ({
            let m = spec_decode_csv(bytes)->Ok_0;
            &&& spec_encode_csv(m) is Ok
            &&& spec_decode_csv(spec_encode_csv(m)->Ok_0) == Result::<TableModel, ErrorKind>::Ok(m)
        }),
{
    lemma_decode_props(bytes);
    lemma_encode_decode_id(spec_decode_csv(bytes)->Ok_0);
}


} // verus!

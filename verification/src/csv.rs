//! The executable table codec, verified against the dialect's specification.

use vstd::prelude::*;
use crate::error::ErrorKind;
use crate::numtext::fmt_i64;
use crate::numtext::scan_int_field;
use crate::numtext::is_int_field;
use crate::numtext::lemma_pow10_values;
use crate::numtext::lemma_int_field_range;
use crate::table::Cell;
use crate::table::CellModel;
use crate::table::Column;
use crate::table::ColumnModel;
use crate::table::Table;
use crate::table::TableModel;
use crate::table::table_wf;
use crate::table::table_rows;
use crate::table::bytes_eq;
use crate::table::clone_bytes;
use crate::csvspec::FIELD_SEP;
use crate::csvspec::LINE_SEP;
use crate::csvspec::sep_free;
use crate::csvspec::field_free;
use crate::csvspec::join_term;
use crate::csvspec::join_sep;
use crate::csvspec::split_term;
use crate::csvspec::split_sep;
use crate::csvspec::lemma_join_term_snoc;
use crate::csvspec::lemma_join_sep_snoc;
use crate::csvspec::lemma_split_term_inv;
use crate::csvspec::lemma_split_term_none;
use crate::csvspec::lemma_split_sep_inv;
use crate::csvspec::cell_field;
use crate::csvspec::cell_encodable;
use crate::csvspec::name_encodable;
use crate::csvspec::table_encodable;
use crate::csvspec::header_names;
use crate::csvspec::row_fields;
use crate::csvspec::all_lines;
use crate::csvspec::spec_encode_csv;
use crate::csvspec::names_ok;
use crate::csvspec::col_fields;
use crate::csvspec::fields_int;
use crate::csvspec::field_cell;
use crate::csvspec::decoded_col;
use crate::csvspec::grid_ok;
use crate::csvspec::spec_decode_csv;
use crate::csvspec::lemma_decode_props;

verus! {

/// The chunk sequence a vector of byte vectors stands for.
pub open spec fn view2(v: Seq<Vec<u8>>) -> Seq<Seq<u8>> {
    v.map_values(|f: Vec<u8>| f@)
}

/// Whether a byte string is free of both separators.
fn is_field_free(v: &Vec<u8>) -> (r: bool)
    ensures
        r <==> field_free(v@),
{
    let mut i: usize = 0;
    #[verifier::loop_isolation(false)]
    while i < v.len()
        invariant
            i <= v@.len(),
            forall|j: int| 0 <= j < i ==> v@[j] != FIELD_SEP && v@[j] != LINE_SEP,
        decreases v@.len() - i,
    {
        if v[i] == FIELD_SEP || v[i] == LINE_SEP {
            return false;
        }
        i = i + 1;
    }
    true
}

/// Appends one byte string to another.
fn push_bytes(out: &mut Vec<u8>, v: &Vec<u8>)
    ensures
        final(out)@ == old(out)@ + v@,
{
    let mut i: usize = 0;
    #[verifier::loop_isolation(false)]
    while i < v.len()
        invariant
            i <= v@.len(),
            out@ == old(out)@ + v@.take(i as int),
        decreases v@.len() - i,
    {
        out.push(v[i]);
        proof {
            assert(out@ =~= old(out)@ + v@.take(i + 1));
        }
        i = i + 1;
    }
    proof {
        assert(out@ =~= old(out)@ + v@);
    }
}

/// Splits one line into its comma-separated fields.
fn split_fields(line: &Vec<u8>) -> (r: Vec<Vec<u8>>)
    requires
        sep_free(line@, LINE_SEP),
    ensures
        view2(r@) == split_sep(line@, FIELD_SEP),
        r@.len() >= 1,
{
    let mut chunks: Vec<Vec<u8>> = Vec::new();
    let mut cur: Vec<u8> = Vec::new();
    let mut i: usize = 0;
    #[verifier::loop_isolation(false)]
    while i < line.len()
        invariant
            i <= line@.len(),
            forall|k: int| 0 <= k < view2(chunks@).len() ==> sep_free(
                #[trigger] view2(chunks@)[k],
                FIELD_SEP,
            ),
            sep_free(cur@, FIELD_SEP),
            line@.take(i as int) == (if chunks@.len() == 0 {
                cur@
            } else {
                join_sep(view2(chunks@), FIELD_SEP) + seq![FIELD_SEP] + cur@
            }),
        decreases line@.len() - i,
    {
        let b = line[i];
        if b == FIELD_SEP {
            let ghost oldchunks = view2(chunks@);
            let ghost oldcur = cur@;
            chunks.push(cur);
            cur = Vec::new();
            proof {
                assert(view2(chunks@) =~= oldchunks.push(oldcur));
                if oldchunks.len() == 0 {
                    assert(join_sep(view2(chunks@), FIELD_SEP) == oldcur);
                } else {
                    lemma_join_sep_snoc(oldchunks, oldcur, FIELD_SEP);
                }
                assert(line@.take(i + 1) =~= line@.take(i as int) + seq![FIELD_SEP]);
                assert(line@.take(i + 1) =~= join_sep(view2(chunks@), FIELD_SEP) + seq![FIELD_SEP]
                    + cur@);
            }
        } else {
            cur.push(b);
            proof {
                assert(line@.take(i + 1) =~= line@.take(i as int) + seq![b]);
            }
        }
        i = i + 1;
    }
    let ghost precur = cur@;
    let ghost prechunks = view2(chunks@);
    chunks.push(cur);
    proof {
        assert(view2(chunks@) =~= prechunks.push(precur));
        assert(line@.take(line@.len() as int) =~= line@);
        if prechunks.len() == 0 {
            assert(join_sep(view2(chunks@), FIELD_SEP) == precur);
        } else {
            lemma_join_sep_snoc(prechunks, precur, FIELD_SEP);
        }
        assert(join_sep(view2(chunks@), FIELD_SEP) == line@);
        assert forall|k: int| 0 <= k < view2(chunks@).len() implies sep_free(
            #[trigger] view2(chunks@)[k],
            FIELD_SEP,
        ) by {
            if k < prechunks.len() {
                assert(view2(chunks@)[k] == prechunks[k]);
            }
        }
        lemma_split_sep_inv(view2(chunks@), FIELD_SEP);
    }
    chunks
}

/// Encodes a table. Fails with `EmptySchema` on a table of no columns and
/// with `UnsupportedType` exactly when some name or value has no
/// representation in the dialect; otherwise the bytes are exactly the
/// specified encoding.
pub fn encode_csv(t: &Table) -> (r: Result<Vec<u8>, ErrorKind>)
    requires
        table_wf(t@),
    ensures
        r matches Ok(v) ==> spec_encode_csv(t@) == Result::<Seq<u8>, ErrorKind>::Ok(v@),
        r matches Err(k) ==> spec_encode_csv(t@) == Result::<Seq<u8>, ErrorKind>::Err(k),
{
    proof {
        lemma_pow10_values();
    }
    let ncols = t.columns.len();
    if ncols == 0 {
        return Err(ErrorKind::EmptySchema);
    }
    let nrows = t.height();

    // Validation pass: every name and cell must be representable.
    let mut c: usize = 0;
    #[verifier::loop_isolation(false)]
    while c < ncols
        invariant
            c <= ncols,
            forall|c2: int|
                0 <= c2 < c ==> (name_encodable((#[trigger] t@.cols[c2]).name) && forall|r2: int|
                    0 <= r2 < t@.cols[c2].cells.len() ==> cell_encodable(
                        #[trigger] t@.cols[c2].cells[r2],
                    )),
        decreases ncols - c,
    {
        if t.columns[c].name.len() == 0 || !is_field_free(&t.columns[c].name) {
            proof {
                assert(!name_encodable(t@.cols[c as int].name));
            }
            return Err(ErrorKind::UnsupportedType);
        }
        let mut r2: usize = 0;
        let rc = t.columns[c].cells.len();
        #[verifier::loop_isolation(false)]
        while r2 < rc
            invariant
                r2 <= rc,
                c < ncols,
                rc == t@.cols[c as int].cells.len(),
                forall|j: int| 0 <= j < r2 ==> cell_encodable(#[trigger] t@.cols[c as int].cells[j]),
            decreases rc - r2,
        {
            let ok = match &t.columns[c].cells[r2] {
                Cell::Null => true,
                Cell::Int(v) => -1_000_000_000_000_000_000 < *v && *v < 1_000_000_000_000_000_000,
                Cell::Text(s) => {
                    if s.len() == 0 {
                        false
                    } else {
                        is_field_free(s)
                    }
                }
            };
            if !ok {
                proof {
                    assert(!cell_encodable(t@.cols[c as int].cells[r2 as int]));
                }
                return Err(ErrorKind::UnsupportedType);
            }
            r2 = r2 + 1;
        }
        c = c + 1;
    }
    proof {
        assert(table_encodable(t@));
    }

    // Emission pass: header line, then one line per row.
    let ghost names = header_names(t@);
    let ghost lines = all_lines(t@);
    let mut out: Vec<u8> = Vec::new();
    let mut c: usize = 0;
    #[verifier::loop_isolation(false)]
    while c < ncols
        invariant
            c <= ncols,
            out@ == (if c == 0 {
                Seq::<u8>::empty()
            } else {
                join_sep(names.take(c as int), FIELD_SEP)
            }),
        decreases ncols - c,
    {
        let ghost pre = out@;
        if c > 0 {
            out.push(FIELD_SEP);
        }
        push_bytes(&mut out, &t.columns[c].name);
        proof {
            assert(names.take(c + 1) =~= names.take(c as int).push(names[c as int]));
            assert(names[c as int] == t@.cols[c as int].name);
            if c == 0 {
                assert(join_sep(names.take(1), FIELD_SEP) == names[0]);
                assert(out@ =~= names[0]);
            } else {
                lemma_join_sep_snoc(names.take(c as int), names[c as int], FIELD_SEP);
                assert(out@ =~= join_sep(names.take(c as int), FIELD_SEP) + seq![FIELD_SEP]
                    + names[c as int]);
            }
        }
        c = c + 1;
    }
    out.push(LINE_SEP);
    proof {
        assert(names.take(ncols as int) =~= names);
        assert(lines[0] == join_sep(names, FIELD_SEP));
        assert(join_term(lines.take(0), LINE_SEP) == Seq::<u8>::empty());
        assert(lines.take(1) =~= lines.take(0).push(lines[0]));
        lemma_join_term_snoc(lines.take(0), lines[0], LINE_SEP);
        assert(out@ =~= join_term(lines.take(1), LINE_SEP));
    }
    let mut r2: usize = 0;
    #[verifier::loop_isolation(false)]
    while r2 < nrows
        invariant
            r2 <= nrows,
            out@ == join_term(lines.take(1 + r2 as int), LINE_SEP),
        decreases nrows - r2,
    {
        let ghost rf = row_fields(t@, r2 as int);
        let ghost linestart = out@;
        let mut c2: usize = 0;
        #[verifier::loop_isolation(false)]
        while c2 < ncols
            invariant
                c2 <= ncols,
                r2 < nrows,
                out@ == linestart + (if c2 == 0 {
                    Seq::<u8>::empty()
                } else {
                    join_sep(rf.take(c2 as int), FIELD_SEP)
                }),
            decreases ncols - c2,
        {
            if c2 > 0 {
                out.push(FIELD_SEP);
            }
            proof {
                assert(t@.cols[c2 as int].cells.len() == table_rows(t@));
            }
            match &t.columns[c2].cells[r2] {
                Cell::Null => {}
                Cell::Int(v) => {
                    proof {
                        assert(cell_encodable(t@.cols[c2 as int].cells[r2 as int]));
                    }
                    let d = fmt_i64(*v);
                    push_bytes(&mut out, &d);
                }
                Cell::Text(s) => {
                    push_bytes(&mut out, s);
                }
            }
            proof {
                assert(rf[c2 as int] == cell_field(t@.cols[c2 as int].cells[r2 as int]));
                assert(rf.take(c2 + 1) =~= rf.take(c2 as int).push(rf[c2 as int]));
                if c2 == 0 {
                    assert(join_sep(rf.take(1), FIELD_SEP) == rf[0]);
                    assert(out@ =~= linestart + rf[0]);
                } else {
                    lemma_join_sep_snoc(rf.take(c2 as int), rf[c2 as int], FIELD_SEP);
                    assert(out@ =~= linestart + (join_sep(rf.take(c2 as int), FIELD_SEP) + seq![
                        FIELD_SEP
                    ] + rf[c2 as int]));
                }
            }
            c2 = c2 + 1;
        }
        out.push(LINE_SEP);
        proof {
            assert(rf.take(ncols as int) =~= rf);
            assert(lines[1 + r2 as int] == join_sep(rf, FIELD_SEP));
            assert(lines.take(1 + r2 as int + 1) =~= lines.take(1 + r2 as int).push(
                lines[1 + r2 as int],
            ));
            lemma_join_term_snoc(lines.take(1 + r2 as int), lines[1 + r2 as int], LINE_SEP);
            assert(out@ =~= join_term(lines.take(1 + r2 as int + 1), LINE_SEP));
        }
        r2 = r2 + 1;
    }
    proof {
        assert(lines.take(1 + nrows as int) =~= lines);
    }
    Ok(out)
}

/// Decodes a payload as a table of the dialect. The result is exactly what
/// the specification prescribes for these bytes, and a decoded table is
/// always well-formed.
pub fn decode_csv(bytes: &Vec<u8>) -> (r: Result<Table, ErrorKind>)
    ensures
        r matches Ok(t) ==> spec_decode_csv(bytes@) == Result::<TableModel, ErrorKind>::Ok(t@)
            && table_wf(t@),
        r matches Err(k) ==> spec_decode_csv(bytes@) == Result::<TableModel, ErrorKind>::Err(k),
{
    let n = bytes.len();
    if n == 0 {
        return Err(ErrorKind::EmptySchema);
    }

    // Split into line-feed-terminated lines.
    let mut lines: Vec<Vec<u8>> = Vec::new();
    let mut cur: Vec<u8> = Vec::new();
    let mut i: usize = 0;
    #[verifier::loop_isolation(false)]
    while i < n
        invariant
            i <= n,
            forall|k: int| 0 <= k < view2(lines@).len() ==> sep_free(
                #[trigger] view2(lines@)[k],
                LINE_SEP,
            ),
            sep_free(cur@, LINE_SEP),
            bytes@.take(i as int) == join_term(view2(lines@), LINE_SEP) + cur@,
        decreases n - i,
    {
        let b = bytes[i];
        if b == LINE_SEP {
            let ghost oldlines = view2(lines@);
            let ghost oldcur = cur@;
            lines.push(cur);
            cur = Vec::new();
            proof {
                assert(view2(lines@) =~= oldlines.push(oldcur));
                lemma_join_term_snoc(oldlines, oldcur, LINE_SEP);
                assert(bytes@.take(i + 1) =~= bytes@.take(i as int) + seq![LINE_SEP]);
                assert(bytes@.take(i + 1) =~= join_term(view2(lines@), LINE_SEP) + cur@);
            }
        } else {
            cur.push(b);
            proof {
                assert(bytes@.take(i + 1) =~= bytes@.take(i as int) + seq![b]);
            }
        }
        i = i + 1;
    }
    let ghost linesm = view2(lines@);
    proof {
        assert(bytes@.take(n as int) =~= bytes@);
    }
    if cur.len() > 0 {
        proof {
            assert(bytes@ == join_term(linesm, LINE_SEP) + cur@);
            assert(bytes@.last() == cur@.last());
            lemma_split_term_none(bytes@, LINE_SEP);
        }
        return Err(ErrorKind::CorruptPayload);
    }
    proof {
        assert(bytes@ =~= join_term(linesm, LINE_SEP));
        lemma_split_term_inv(linesm, LINE_SEP);
        assert(split_term(bytes@, LINE_SEP) == Option::Some(linesm));
        if linesm.len() == 0 {
            assert(bytes@ =~= Seq::<u8>::empty());
        }
        assert(linesm.len() > 0);
    }

    // Split the header into names and check them.
    let names = split_fields(&lines[0]);
    let ghost namesm = split_sep(linesm[0], FIELD_SEP);
    proof {
        assert(view2(names@) == namesm);
    }
    let nnames = names.len();
    let mut ni: usize = 0;
    #[verifier::loop_isolation(false)]
    while ni < nnames
        invariant
            ni <= nnames,
            nnames == namesm.len(),
            forall|j: int| 0 <= j < ni ==> (#[trigger] namesm[j]).len() > 0,
            forall|a: int, b2: int| 0 <= a < b2 < ni ==> namesm[a] != namesm[b2],
        decreases nnames - ni,
    {
        if names[ni].len() == 0 {
            proof {
                assert(namesm[ni as int].len() == 0);
                assert(!names_ok(namesm));
            }
            return Err(ErrorKind::CorruptPayload);
        }
        let mut nj: usize = 0;
        #[verifier::loop_isolation(false)]
        while nj < ni
            invariant
                nj <= ni < nnames,
                nnames == namesm.len(),
                forall|b2: int| 0 <= b2 < nj ==> namesm[b2] != namesm[ni as int],
            decreases ni - nj,
        {
            if bytes_eq(&names[nj], &names[ni]) {
                proof {
                    assert(namesm[nj as int] == namesm[ni as int]);
                    assert(!names_ok(namesm));
                }
                return Err(ErrorKind::CorruptPayload);
            }
            nj = nj + 1;
        }
        ni = ni + 1;
    }
    proof {
        assert(names_ok(namesm));
    }

    // Split every row and check its width.
    let ghost gridm = Seq::new(
        (linesm.len() - 1) as nat,
        |r: int| split_sep(linesm[r + 1], FIELD_SEP),
    );
    let mut grid: Vec<Vec<Vec<u8>>> = Vec::new();
    let mut li: usize = 1;
    #[verifier::loop_isolation(false)]
    while li < lines.len()
        invariant
            1 <= li <= lines@.len(),
            grid@.len() == li - 1,
            forall|j: int| 0 <= j < li - 1 ==> view2((#[trigger] grid@[j])@) == gridm[j]
                && gridm[j].len() == namesm.len(),
        decreases lines@.len() - li,
    {
        proof {
            assert(view2(lines@)[li as int] == lines@[li as int]@);
            assert(sep_free(linesm[li as int], LINE_SEP));
        }
        let fields = split_fields(&lines[li]);
        proof {
            assert(view2(fields@) == split_sep(linesm[li as int], FIELD_SEP));
            assert(gridm[li - 1] == split_sep(linesm[li as int], FIELD_SEP));
        }
        if fields.len() != nnames {
            proof {
                assert(gridm[li - 1].len() != namesm.len());
                assert(!grid_ok(namesm, gridm));
            }
            return Err(ErrorKind::CorruptPayload);
        }
        grid.push(fields);
        li = li + 1;
    }
    proof {
        assert forall|r: int| 0 <= r < gridm.len() implies (#[trigger] gridm[r]).len()
            == namesm.len() by {
            assert(view2((grid@[r])@) == gridm[r]);
        }
        assert(grid_ok(namesm, gridm));
        assert(grid@.len() == gridm.len());
    }
    let ngrows = grid.len();

    // Build each column: infer its type, then its cells.
    let ghost specm = TableModel {
        cols: Seq::new(namesm.len(), |c: int| decoded_col(namesm[c], col_fields(gridm, c))),
    };
    let mut cols: Vec<Column> = Vec::new();
    let mut c: usize = 0;
    #[verifier::loop_isolation(false)]
    while c < nnames
        invariant
            c <= nnames,
            nnames == namesm.len(),
            ngrows == gridm.len(),
            grid@.len() == gridm.len(),
            forall|j: int| 0 <= j < gridm.len() ==> view2((#[trigger] grid@[j])@) == gridm[j]
                && gridm[j].len() == namesm.len(),
            cols@.len() == c,
            forall|c2: int| 0 <= c2 < c ==> (#[trigger] cols@[c2])@ == specm.cols[c2],
        decreases nnames - c,
    {
        let ghost fs = col_fields(gridm, c as int);
        proof {
            assert(fs.len() == gridm.len());
            assert(forall|r3: int| 0 <= r3 < fs.len() ==> #[trigger] fs[r3] == gridm[r3][c as int]);
        }
        let mut is_int_col = true;
        let mut r3: usize = 0;
        #[verifier::loop_isolation(false)]
        while r3 < ngrows
            invariant
                r3 <= ngrows,
                c < nnames,
                is_int_col <==> (forall|j: int|
                    0 <= j < r3 ==> ((#[trigger] fs[j]).len() == 0 || is_int_field(fs[j]))),
            decreases ngrows - r3,
        {
            let f = &grid[r3][c];
            proof {
                assert(f@ == fs[r3 as int]);
            }
            if f.len() > 0 {
                let sc = scan_int_field(f);
                if sc.is_none() {
                    is_int_col = false;
                } else if is_int_col {
                    proof {
                        assert(forall|j: int|
                            0 <= j < r3 + 1 ==> ((#[trigger] fs[j]).len() == 0 || is_int_field(
                                fs[j],
                            )));
                    }
                }
            }
            r3 = r3 + 1;
        }
        proof {
            assert(is_int_col <==> fields_int(fs));
        }
        let mut cells: Vec<Cell> = Vec::new();
        let mut r4: usize = 0;
        #[verifier::loop_isolation(false)]
        while r4 < ngrows
            invariant
                r4 <= ngrows,
                c < nnames,
                is_int_col <==> fields_int(fs),
                cells@.len() == r4,
                forall|j: int| 0 <= j < r4 ==> (#[trigger] cells@[j])@ == field_cell(
                    fs[j],
                    fields_int(fs),
                ),
            decreases ngrows - r4,
        {
            let f = &grid[r4][c];
            proof {
                assert(f@ == fs[r4 as int]);
            }
            let cell: Cell = if f.len() == 0 {
                Cell::Null
            } else if is_int_col {
                match scan_int_field(f) {
                    Some(v) => {
                        proof {
                            lemma_int_field_range(f@);
                        }
                        Cell::Int(v)
                    }
                    None => {
                        proof {
                            assert(is_int_field(fs[r4 as int]));
                            assert(false);
                        }
                        Cell::Null
                    }
                }
            } else {
                Cell::Text(clone_bytes(f))
            };
            proof {
                assert(cell@ == field_cell(fs[r4 as int], fields_int(fs)));
            }
            cells.push(cell);
            r4 = r4 + 1;
        }
        let col = Column { name: clone_bytes(&names[c]), cells };
        proof {
            assert(col@.cells =~= Seq::new(fs.len(), |r5: int| field_cell(fs[r5], fields_int(fs))));
            assert(col@ =~~= decoded_col(namesm[c as int], fs));
            assert(col@ == specm.cols[c as int]);
        }
        cols.push(col);
        c = c + 1;
    }
    let t = Table { columns: cols };
    proof {
        assert(t@.cols =~= specm.cols);
        assert(t@ =~~= specm);
        assert(spec_decode_csv(bytes@) == Result::<TableModel, ErrorKind>::Ok(t@));
        lemma_decode_props(bytes@);
    }
    Ok(t)
}

} // verus!

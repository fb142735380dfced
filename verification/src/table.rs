//! The in-memory columnar table: an ordered sequence of named columns of
//! nullable values, all of equal length.

use vstd::prelude::*;
use crate::error::ErrorKind;

verus! {

/// Mathematical model of one cell value.
#[verifier::ext_equal]
pub enum CellModel {
    Null,
    Int(i64),
    Text(Seq<u8>),
}

/// Mathematical model of one column.
#[verifier::ext_equal]
pub struct ColumnModel {
    pub name: Seq<u8>,
    pub cells: Seq<CellModel>,
}

/// Mathematical model of a table.
#[verifier::ext_equal]
pub struct TableModel {
    pub cols: Seq<ColumnModel>,
}

/// One cell value: null, a 64-bit integer, or a byte string.
#[derive(Debug, Clone)]
pub enum Cell {
    Null,
    Int(i64),
    Text(Vec<u8>),
}

/// One named column of cells.
#[derive(Debug, Clone)]
pub struct Column {
    pub name: Vec<u8>,
    pub cells: Vec<Cell>,
}

/// An ordered sequence of named, equal-length columns.
#[derive(Debug, Clone)]
pub struct Table {
    pub columns: Vec<Column>,
}

impl View for Cell {
    type V = CellModel;

    open spec fn view(&self) -> CellModel {
        match self {
            Cell::Null => CellModel::Null,
            Cell::Int(v) => CellModel::Int(*v),
            Cell::Text(s) => CellModel::Text(s@),
        }
    }
}

impl View for Column {
    type V = ColumnModel;

    open spec fn view(&self) -> ColumnModel {
        ColumnModel { name: self.name@, cells: self.cells@.map_values(|c: Cell| c@) }
    }
}

impl View for Table {
    type V = TableModel;

    open spec fn view(&self) -> TableModel {
        TableModel { cols: self.columns@.map_values(|c: Column| c@) }
    }
}

/// No cell of the column is text.
pub open spec fn col_no_text(c: ColumnModel) -> bool {
    forall|i: int| 0 <= i < c.cells.len() ==> !(c.cells[i] is Text)
}

/// No cell of the column is an integer.
pub open spec fn col_no_int(c: ColumnModel) -> bool {
    forall|i: int| 0 <= i < c.cells.len() ==> !(c.cells[i] is Int)
}

/// A column is homogeneous: its non-null cells all have one type.
pub open spec fn col_homogeneous(c: ColumnModel) -> bool {
    col_no_text(c) || col_no_int(c)
}

/// The table's row count: the length its columns share.
pub open spec fn table_rows(t: TableModel) -> nat {
    if t.cols.len() == 0 {
        0
    } else {
        t.cols[0].cells.len()
    }
}

/// Table invariant: every column is named, holds exactly the shared row
/// count of cells, and is homogeneous; column names are unique.
pub open spec fn table_wf(t: TableModel) -> bool {
    &&& forall|i: int| 0 <= i < t.cols.len() ==> (#[trigger] t.cols[i]).name.len() > 0
    &&& forall|i: int| 0 <= i < t.cols.len() ==> (#[trigger] t.cols[i]).cells.len() == table_rows(t)
    &&& forall|i: int| 0 <= i < t.cols.len() ==> col_homogeneous(#[trigger] t.cols[i])
    &&& forall|i: int, j: int|
        0 <= i < j < t.cols.len() ==> (#[trigger] t.cols[i]).name != (#[trigger] t.cols[j]).name
}

/// Byte-string equality.
pub fn bytes_eq(a: &Vec<u8>, b: &Vec<u8>) -> (r: bool)
    ensures
        r <==> a@ == b@,
{
    if a.len() != b.len() {
        return false;
    }
    let mut i: usize = 0;
    #[verifier::loop_isolation(false)]
    while i < a.len()
        invariant
            i <= a@.len(),
            a@.len() == b@.len(),
            forall|j: int| 0 <= j < i ==> a@[j] == b@[j],
        decreases a@.len() - i,
    {
        if a[i] != b[i] {
            return false;
        }
        i = i + 1;
    }
    proof {
        assert(a@ =~= b@);
    }
    true
}

/// Copies a byte string.
pub fn clone_bytes(v: &Vec<u8>) -> (r: Vec<u8>)
    ensures
        r@ == v@,
{
    v.clone()
}

/// Copies one cell.
pub fn clone_cell(c: &Cell) -> (r: Cell)
    ensures
        r@ == c@,
{
    match c {
        Cell::Null => Cell::Null,
        Cell::Int(v) => Cell::Int(*v),
        Cell::Text(s) => Cell::Text(clone_bytes(s)),
    }
}

/// The cells kept when `mask` selects rows: row `r` survives exactly when
/// `mask[r]` is not null. Both sequences must have the same length.
pub open spec fn filtered_cells(cells: Seq<CellModel>, mask: Seq<CellModel>) -> Seq<CellModel>
    decreases mask.len(),
{
    if mask.len() == 0 || cells.len() != mask.len() {
        Seq::empty()
    } else {
        let init = filtered_cells(cells.drop_last(), mask.drop_last());
        if mask.last() is Null {
            init
        } else {
            init.push(cells.last())
        }
    }
}

/// Filtering two equal-length columns by one mask keeps them equal-length.
pub proof fn lemma_filtered_len_eq(c1: Seq<CellModel>, c2: Seq<CellModel>, mask: Seq<CellModel>)
    requires
        c1.len() == mask.len(),
        c2.len() == mask.len(),
    ensures
        filtered_cells(c1, mask).len() == filtered_cells(c2, mask).len(),
        filtered_cells(c1, mask).len() <= mask.len(),
    decreases mask.len(),
{
    if mask.len() > 0 {
        lemma_filtered_len_eq(c1.drop_last(), c2.drop_last(), mask.drop_last());
    }
}

/// Filtering preserves column homogeneity.
pub proof fn lemma_filtered_homogeneous(cells: Seq<CellModel>, mask: Seq<CellModel>)
    ensures
        col_no_text(ColumnModel { name: Seq::empty(), cells }) ==> col_no_text(
            ColumnModel { name: Seq::empty(), cells: filtered_cells(cells, mask) },
        ),
        col_no_int(ColumnModel { name: Seq::empty(), cells }) ==> col_no_int(
            ColumnModel { name: Seq::empty(), cells: filtered_cells(cells, mask) },
        ),
    decreases mask.len(),
{
    if mask.len() == 0 || cells.len() != mask.len() {
    } else {
        lemma_filtered_homogeneous(cells.drop_last(), mask.drop_last());
        assert(forall|i: int| 0 <= i < cells.len() - 1 ==> cells.drop_last()[i] == cells[i]);
        assert(cells.last() == cells[cells.len() - 1]);
    }
}

impl Table {
    /// The number of columns.
    pub fn width(&self) -> (r: usize)
        ensures
            r == self@.cols.len(),
    {
        self.columns.len()
    }

    /// The shared row count of the columns.
    pub fn height(&self) -> (r: usize)
        ensures
            r == table_rows(self@),
    {
        if self.columns.len() == 0 {
            0
        } else {
            self.columns[0].cells.len()
        }
    }

    /// Looks a column up by name.
    pub fn find_column(&self, name: &Vec<u8>) -> (r: Option<usize>)
        ensures
            match r {
                Some(i) => i < self@.cols.len() && self@.cols[i as int].name == name@,
                None => forall|i: int| 0 <= i < self@.cols.len() ==> self@.cols[i].name != name@,
            },
    {
        let mut i: usize = 0;
        #[verifier::loop_isolation(false)]
        while i < self.columns.len()
            invariant
                i <= self@.cols.len(),
                forall|j: int| 0 <= j < i ==> self@.cols[j].name != name@,
            decreases self@.cols.len() - i,
        {
            if bytes_eq(&self.columns[i].name, name) {
                return Some(i);
            }
            i = i + 1;
        }
        None
    }

    /// Keeps exactly the rows in which the named column is non-null, across
    /// every column, in order. Fails with `InvalidReference` exactly when no
    /// column has that name. A well-formed table filters to a well-formed
    /// table.
    pub fn filter_non_null(&self, name: &Vec<u8>) -> (r: Result<Table, ErrorKind>)
        requires
            table_wf(self@),
        ensures
            r is Ok <==> exists|c: int| 0 <= c < self@.cols.len() && self@.cols[c].name == name@,
            r matches Err(k) ==> k == ErrorKind::InvalidReference,
            r matches Ok(ft) ==> {
                &&& ft@.cols.len() == self@.cols.len()
                &&& table_wf(ft@)
                &&& forall|c: int, k: int|
                    #![trigger ft@.cols[k], self@.cols[c]]
                    0 <= c < self@.cols.len() && self@.cols[c].name == name@ && 0 <= k
                        < self@.cols.len() ==> ft@.cols[k] == (ColumnModel {
                        name: self@.cols[k].name,
                        cells: filtered_cells(self@.cols[k].cells, self@.cols[c].cells),
                    })
            },
    {
        let found = self.find_column(name);
        let cidx: usize = match found {
            Some(i) => i,
            None => {
                return Err(ErrorKind::InvalidReference);
            }
        };
        let nrows = self.height();
        let ncols = self.columns.len();
        let mut out_cols: Vec<Column> = Vec::new();
        let mut k: usize = 0;
        #[verifier::loop_isolation(false)]
        while k < ncols
            invariant
                out_cols@.len() == k,
                k <= ncols,
                forall|k2: int|
                    0 <= k2 < k ==> (#[trigger] out_cols@[k2])@ == (ColumnModel {
                        name: self@.cols[k2].name,
                        cells: filtered_cells(self@.cols[k2].cells, self@.cols[cidx as int].cells),
                    }),
            decreases ncols - k,
        {
            let mut cells: Vec<Cell> = Vec::new();
            let mut r2: usize = 0;
            proof {
                assert(self@.cols[k as int].cells =~= self@.cols[k as int].cells.take(nrows as int));
                assert(self@.cols[cidx as int].cells =~= self@.cols[cidx as int].cells.take(
                    nrows as int,
                ));
            }
            #[verifier::loop_isolation(false)]
            while r2 < nrows
                invariant
                    r2 <= nrows,
                    k < ncols,
                    cells@.map_values(|x: Cell| x@) == filtered_cells(
                        self@.cols[k as int].cells.take(r2 as int),
                        self@.cols[cidx as int].cells.take(r2 as int),
                    ),
                decreases nrows - r2,
            {
                let ghost pre = cells@.map_values(|x: Cell| x@);
                let keep = match &self.columns[cidx].cells[r2] {
                    Cell::Null => false,
                    _ => true,
                };
                if keep {
                    let cc = clone_cell(&self.columns[k].cells[r2]);
                    cells.push(cc);
                }
                proof {
                    let ck = self@.cols[k as int].cells;
                    let cm = self@.cols[cidx as int].cells;
                    assert(ck.take(r2 + 1).drop_last() =~= ck.take(r2 as int));
                    assert(cm.take(r2 + 1).drop_last() =~= cm.take(r2 as int));
                    assert(ck.take(r2 + 1).last() == ck[r2 as int]);
                    assert(cm.take(r2 + 1).last() == cm[r2 as int]);
                    if keep {
                        assert(cells@.map_values(|x: Cell| x@) =~= pre.push(ck[r2 as int]));
                    }
                }
                r2 = r2 + 1;
            }
            let col = Column { name: clone_bytes(&self.columns[k].name), cells };
            out_cols.push(col);
            k = k + 1;
        }
        let ft = Table { columns: out_cols };
        proof {
            assert(ft@.cols.len() == self@.cols.len());
            let mask = self@.cols[cidx as int].cells;
            assert forall|k2: int| 0 <= k2 < self@.cols.len() implies (#[trigger] ft@.cols[k2])
                == ColumnModel {
                name: self@.cols[k2].name,
                cells: filtered_cells(self@.cols[k2].cells, mask),
            } by {
                assert(ft@.cols[k2] == out_cols@[k2]@);
            }
            assert forall|c: int|
                0 <= c < self@.cols.len() && self@.cols[c].name == name@ implies c == cidx as int by {
                if c != cidx as int {
                    assert(self@.cols[c].name != self@.cols[cidx as int].name);
                }
            }
            assert(table_wf(ft@)) by {
                assert forall|i: int| 0 <= i < ft@.cols.len() implies (#[trigger] ft@.cols[i]).cells.len()
                    == table_rows(ft@) by {
                    lemma_filtered_len_eq(self@.cols[i].cells, self@.cols[0].cells, mask);
                }
                assert forall|i: int| 0 <= i < ft@.cols.len() implies col_homogeneous(
                    #[trigger] ft@.cols[i],
                ) by {
                    lemma_filtered_homogeneous(self@.cols[i].cells, mask);
                    assert(col_homogeneous(self@.cols[i]));
                }
            }
        }
        Ok(ft)
    }

    /// Structural equality of two tables: same column names, order, and
    /// cell values.
    pub fn same_as(&self, other: &Table) -> (r: bool)
        ensures
            r <==> self@ == other@,
    {
        if self.columns.len() != other.columns.len() {
            proof {
                assert(self@.cols.len() != other@.cols.len());
            }
            return false;
        }
        let mut k: usize = 0;
        #[verifier::loop_isolation(false)]
        while k < self.columns.len()
            invariant
                k <= self@.cols.len(),
                self@.cols.len() == other@.cols.len(),
                forall|j: int| 0 <= j < k ==> self@.cols[j] == other@.cols[j],
            decreases self@.cols.len() - k,
        {
            if !bytes_eq(&self.columns[k].name, &other.columns[k].name) {
                proof {
                    assert(self@.cols[k as int].name == self.columns@[k as int]@.name);
                    assert(other@.cols[k as int].name == other.columns@[k as int]@.name);
                }
                return false;
            }
            if self.columns[k].cells.len() != other.columns[k].cells.len() {
                proof {
                    assert(self@.cols[k as int].cells.len() != other@.cols[k as int].cells.len());
                }
                return false;
            }
            let mut r2: usize = 0;
            #[verifier::loop_isolation(false)]
            while r2 < self.columns[k].cells.len()
                invariant
                    r2 <= self@.cols[k as int].cells.len(),
                    k < self@.cols.len(),
                    self@.cols.len() == other@.cols.len(),
                    self@.cols[k as int].cells.len() == other@.cols[k as int].cells.len(),
                    self@.cols[k as int].name == other@.cols[k as int].name,
                    forall|j: int|
                        0 <= j < r2 ==> self@.cols[k as int].cells[j] == other@.cols[k as int].cells[j],
                decreases self@.cols[k as int].cells.len() - r2,
            {
                let same = match (&self.columns[k].cells[r2], &other.columns[k].cells[r2]) {
                    (Cell::Null, Cell::Null) => true,
                    (Cell::Int(a), Cell::Int(b)) => *a == *b,
                    (Cell::Text(a), Cell::Text(b)) => bytes_eq(a, b),
                    _ => false,
                };
                if !same {
                    proof {
                        assert(self@.cols[k as int].cells[r2 as int] != other@.cols[
                            k as int
                        ].cells[r2 as int]);
                    }
                    return false;
                }
                r2 = r2 + 1;
            }
            proof {
                assert(self@.cols[k as int].cells =~= other@.cols[k as int].cells);
                assert(self@.cols[k as int] =~= other@.cols[k as int]);
            }
            k = k + 1;
        }
        proof {
            assert(self@.cols =~= other@.cols);
            assert(self@ =~= other@);
        }
        true
    }
}

} // verus!

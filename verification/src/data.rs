//! The atomic value type, rows, signed records, and the spec-level model they
//! are reasoned about with.

use vstd::prelude::*;

verus! {

/// Spec-level model of one column value: the mathematical shape that all
/// contracts in this crate speak of.
pub enum DataValue {
    Null,
    Int(int),
    Text(Seq<char>),
}

/// An atomic, comparable, cloneable scalar occupying one column of a row.
#[derive(Debug, PartialEq, Eq, Hash)]
pub enum DataType {
    /// The absent value.
    Null,
    /// A signed integer.
    Int(i64),
    /// A textual value.
    Text(String),
}

impl View for DataType {
    type V = DataValue;

    open spec fn view(&self) -> DataValue {
        match self {
            DataType::Null => DataValue::Null,
            DataType::Int(i) => DataValue::Int(*i as int),
            DataType::Text(s) => DataValue::Text(s@),
        }
    }
}

impl DeepView for DataType {
    type V = DataValue;

    open spec fn deep_view(&self) -> DataValue {
        self.view()
    }
}

impl Clone for DataType {
    fn clone(&self) -> (res: Self)
        ensures
            res@ == self@,
    {
        match self {
            DataType::Null => DataType::Null,
            DataType::Int(i) => DataType::Int(*i),
            DataType::Text(s) => DataType::Text(s.clone()),
        }
    }
}

/// Equality of two values, decided exactly as their models compare.
pub fn dt_eq(a: &DataType, b: &DataType) -> (r: bool)
    ensures
        r == (a@ == b@),
{
    match a {
        DataType::Null => match b {
            DataType::Null => true,
            _ => false,
        },
        DataType::Int(x) => match b {
            DataType::Int(y) => *x == *y,
            _ => false,
        },
        DataType::Text(x) => match b {
            DataType::Text(y) => *x == *y,
            _ => false,
        },
    }
}

/// Equality of two rows, decided exactly as their models compare.
pub fn row_eq(a: &Vec<DataType>, b: &Vec<DataType>) -> (r: bool)
    ensures
        r == (a.deep_view() == b.deep_view()),
{
    if a.len() != b.len() {
        assert(a.deep_view().len() == a@.len());
        assert(b.deep_view().len() == b@.len());
        return false;
    }
    let n = a.len();
    let mut i: usize = 0;
    while i < n
        invariant
            n == a@.len() && n == b@.len(),
            0 <= i <= n,
            forall|j: int| 0 <= j < i ==> a@[j]@ == b@[j]@,
        decreases n - i,
    {
        if !dt_eq(&a[i], &b[i]) {
            assert(a.deep_view()[i as int] != b.deep_view()[i as int]);
            return false;
        }
        i += 1;
    }
    proof {
        assert(a.deep_view() =~= b.deep_view());
    }
    true
}

/// An owned copy of a row whose model is the row's own.
pub fn clone_row(r: &Vec<DataType>) -> (res: Vec<DataType>)
    ensures
        res.deep_view() == r.deep_view(),
{
    let mut out: Vec<DataType> = Vec::new();
    let n = r.len();
    let mut i: usize = 0;
    while i < n
        invariant
            n == r@.len(),
            0 <= i <= n,
            out@.len() == i,
            forall|j: int| 0 <= j < i ==> out@[j]@ == r@[j]@,
        decreases n - i,
    {
        out.push(r[i].clone());
        i += 1;
    }
    proof {
        assert(out.deep_view() =~= r.deep_view());
    }
    out
}

/// The key a row yields under a column selection: the values of `row` at the
/// positions `cols` names, in that order.
pub open spec fn project(row: Seq<DataValue>, cols: Seq<usize>) -> Seq<DataValue> {
    cols.map_values(|c: usize| row[c as int])
}

/// Owned projection of a row to the given columns.
pub fn project_row(row: &Vec<DataType>, cols: &Vec<usize>) -> (res: Vec<DataType>)
    requires
        forall|i: int| 0 <= i < cols@.len() ==> cols@[i] < row@.len(),
    ensures
        res.deep_view() == project(row.deep_view(), cols@),
{
    let mut out: Vec<DataType> = Vec::new();
    let n = cols.len();
    let mut i: usize = 0;
    while i < n
        invariant
            n == cols@.len(),
            forall|j: int| 0 <= j < n ==> cols@[j] < row@.len(),
            0 <= i <= n,
            out@.len() == i,
            forall|j: int| 0 <= j < i ==> out@[j]@ == row@[cols@[j] as int]@,
        decreases n - i,
    {
        out.push(row[cols[i]].clone());
        i += 1;
    }
    proof {
        assert(out.deep_view() =~= project(row.deep_view(), cols@));
    }
    out
}

/// The concatenation of two rows.
pub fn concat_rows(a: &Vec<DataType>, b: &Vec<DataType>) -> (res: Vec<DataType>)
    ensures
        res.deep_view() == a.deep_view() + b.deep_view(),
{
    let mut out = clone_row(a);
    proof {
        assert(out@.len() == out.deep_view().len());
        assert(a@.len() == a.deep_view().len());
    }
    let n = b.len();
    let mut i: usize = 0;
    while i < n
        invariant
            n == b@.len(),
            0 <= i <= n,
            out@.len() == a@.len() + i,
            forall|j: int| 0 <= j < a@.len() ==> out.deep_view()[j] == a.deep_view()[j],
            forall|j: int| 0 <= j < i ==> out.deep_view()[a@.len() + j] == b.deep_view()[j],
        decreases n - i,
    {
        out.push(b[i].clone());
        i += 1;
    }
    proof {
        assert(out.deep_view() =~= a.deep_view() + b.deep_view());
    }
    out
}

/// An owned copy of a column list.
pub fn copy_cols(c: &Vec<usize>) -> (res: Vec<usize>)
    ensures
        res@ == c@,
{
    let mut out: Vec<usize> = Vec::new();
    let n = c.len();
    let mut i: usize = 0;
    while i < n
        invariant
            n == c@.len(),
            0 <= i <= n,
            out@.len() == i,
            forall|j: int| 0 <= j < i ==> out@[j] == c@[j],
        decreases n - i,
    {
        out.push(c[i]);
        i += 1;
    }
    proof {
        assert(out@ =~= c@);
    }
    out
}

/// An owned copy of a per-column condition list whose model is its own.
pub fn clone_conditions(c: &Vec<Option<DataType>>) -> (res: Vec<Option<DataType>>)
    ensures
        res.deep_view() == c.deep_view(),
{
    let mut out: Vec<Option<DataType>> = Vec::new();
    let n = c.len();
    let mut i: usize = 0;
    while i < n
        invariant
            n == c@.len(),
            0 <= i <= n,
            out@.len() == i,
            forall|j: int| 0 <= j < i ==> out.deep_view()[j] == c.deep_view()[j],
        decreases n - i,
    {
        match &c[i] {
            Some(d) => out.push(Some(d.clone())),
            None => out.push(None),
        }
        proof {
            assert(out.deep_view()[i as int] == c.deep_view()[i as int]);
        }
        i += 1;
    }
    proof {
        assert(out.deep_view() =~= c.deep_view());
    }
    out
}

/// A signed row: an insertion or a retraction flowing between nodes.
#[derive(Debug, PartialEq, Eq)]
pub enum Record {
    Positive(Vec<DataType>),
    Negative(Vec<DataType>),
}

impl Record {
    /// The model of the row this record carries, sign left aside.
    pub open spec fn row_view(&self) -> Seq<DataValue> {
        match self {
            Record::Positive(r) => r.deep_view(),
            Record::Negative(r) => r.deep_view(),
        }
    }

    /// Whether this record is an insertion.
    pub open spec fn spec_is_positive(&self) -> bool {
        self matches Record::Positive(_)
    }

    /// The row this record carries.
    pub fn rec_row(&self) -> (r: &Vec<DataType>)
        ensures
            r.deep_view() == self.row_view(),
    {
        match self {
            Record::Positive(r) => r,
            Record::Negative(r) => r,
        }
    }

    /// Whether this record is an insertion.
    pub fn is_positive(&self) -> (r: bool)
        ensures
            r == self.spec_is_positive(),
    {
        match self {
            Record::Positive(_) => true,
            Record::Negative(_) => false,
        }
    }

    /// A record of the same sign carrying the given row.
    pub fn with_row(&self, row: Vec<DataType>) -> (r: Record)
        ensures
            r.row_view() == row.deep_view(),
            r.spec_is_positive() == self.spec_is_positive(),
    {
        match self {
            Record::Positive(_) => Record::Positive(row),
            Record::Negative(_) => Record::Negative(row),
        }
    }
}

/// The model of one signed record: its sign and its row.
pub open spec fn rec_model(r: Record) -> (bool, Seq<DataValue>) {
    (r.spec_is_positive(), r.row_view())
}

/// The model of a batch, record by record.
pub open spec fn recs_model(rs: Seq<Record>) -> Seq<(bool, Seq<DataValue>)> {
    rs.map_values(|r: Record| rec_model(r))
}

/// An owned copy of a record whose model is the record's own.
pub fn clone_record(r: &Record) -> (res: Record)
    ensures
        res.row_view() == r.row_view(),
        res.spec_is_positive() == r.spec_is_positive(),
{
    match r {
        Record::Positive(v) => Record::Positive(clone_row(v)),
        Record::Negative(v) => Record::Negative(clone_row(v)),
    }
}

/// An ordered batch of signed rows; insertion order is significant.
pub type Records = Vec<Record>;

} // verus!

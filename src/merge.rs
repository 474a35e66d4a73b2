//! Merge planning: the fixed column projection, the schema check that every
//! input file must pass, and the shape of the merged output.

use vstd::prelude::*;
use crate::error::PipelineError;
use crate::fetch::{is_listed, name_set};
use crate::text::chars_of;

verus! {

/// Name of the merged output file, written in the working directory.
pub const OUTPUT_FILE: &'static str = "final.parquet";

/// The type a projected column is cast to.
#[derive(Clone, Copy, Debug, PartialEq, Eq, Structural)]
pub enum ColumnType {
    /// A calendar date.
    Date,
    /// A 64-bit signed integer.
    Int64,
}

/// One column of the projection: the source column's name and its target type.
#[derive(Debug)]
pub struct ProjectedColumn {
    pub source: String,
    pub target: ColumnType,
}

/// What the merge needs to know of one input file: its column names and its
/// number of rows.
#[derive(Debug)]
pub struct FileSchema {
    pub columns: Vec<String>,
    pub rows: u64,
}

/// The shape of the merged dataset: its rows and its columns, in order.
#[derive(Debug)]
pub struct MergeShape {
    pub rows: u64,
    pub columns: Vec<ProjectedColumn>,
}

/// The projection applied to every input file, in output order.
pub open spec fn projection_spec() -> Seq<(Seq<char>, ColumnType)> {
    seq![
        ("tpep_pickup_datetime"@, ColumnType::Date),
        ("tpep_dropoff_datetime"@, ColumnType::Date),
        ("PULocationID"@, ColumnType::Int64),
        ("DOLocationID"@, ColumnType::Int64),
    ]
}

/// The view of a list of projected columns.
pub open spec fn column_views(cols: Seq<ProjectedColumn>) -> Seq<(Seq<char>, ColumnType)> {
    cols.map_values(|c: ProjectedColumn| (c.source@, c.target))
}

/// The first projected column, from index `c` on, whose name is not in `names`.
pub open spec fn missing_from(names: Set<Seq<char>>, c: int) -> Option<int>
    decreases projection_spec().len() - c,
{
    if c < 0 || c >= projection_spec().len() {
        None
    } else if !names.contains(projection_spec()[c].0) {
        Some(c)
    } else {
        missing_from(names, c + 1)
    }
}

/// The first projected column that a file with column names `names` lacks.
pub open spec fn missing_column(names: Set<Seq<char>>) -> Option<int> {
    missing_from(names, 0)
}

/// The first file, from index `i` on, that lacks a projected column, with
/// that column's index.
pub open spec fn mismatch_from(files: Seq<FileSchema>, i: int) -> Option<(int, int)>
    decreases files.len() - i,
{
    if i < 0 || i >= files.len() {
        None
    } else {
        match missing_column(name_set(files[i].columns@)) {
            Some(c) => Some((i, c)),
            None => mismatch_from(files, i + 1),
        }
    }
}

/// The first file that lacks a projected column, with that column's index.
pub open spec fn first_mismatch(files: Seq<FileSchema>) -> Option<(int, int)> {
    mismatch_from(files, 0)
}

/// The sum of the row counts of `files`.
pub open spec fn total_rows(files: Seq<FileSchema>) -> int
    decreases files.len(),
{
    if files.len() == 0 {
        0
    } else {
        total_rows(files.drop_last()) + files.last().rows
    }
}

/// What merging `files` yields: the merged shape (rows and columns), or the
/// indices of the first file and column that fail the schema check.
pub open spec fn merge_outcome(files: Seq<FileSchema>) -> Result<
    (int, Seq<(Seq<char>, ColumnType)>),
    (int, int),
> {
    match first_mismatch(files) {
        Some(m) => Err(m),
        None => Ok((total_rows(files), projection_spec())),
    }
}

/// `r` is the result of merging `files`.
pub open spec fn is_merge_of(r: Result<MergeShape, PipelineError>, files: Seq<FileSchema>) -> bool {
    match merge_outcome(files) {
        Ok((rows, cols)) => r is Ok && r->Ok_0.rows == rows && column_views(r->Ok_0.columns@) == cols,
        Err((i, c)) => r is Err && r->Err_0 == (PipelineError::SchemaMismatch {
            file_index: i as usize,
            column_index: c as usize,
        }) && i < files.len() && c < projection_spec().len(),
    }
}

/// The projection applied to every input file: the two timestamp columns
/// cast to dates, then the two location columns cast to 64-bit integers.
pub fn column_projection() -> (r: Vec<ProjectedColumn>)
    ensures
        column_views(r@) == projection_spec(),
{
    let r = vec![
        ProjectedColumn { source: "tpep_pickup_datetime".to_owned(), target: ColumnType::Date },
        ProjectedColumn { source: "tpep_dropoff_datetime".to_owned(), target: ColumnType::Date },
        ProjectedColumn { source: "PULocationID".to_owned(), target: ColumnType::Int64 },
        ProjectedColumn { source: "DOLocationID".to_owned(), target: ColumnType::Int64 },
    ];
    assert(column_views(r@) =~= projection_spec());
    r
}

/// The index of the first projected column that is not among `columns`.
pub fn find_missing_column(columns: &Vec<String>) -> (r: Option<usize>)
    ensures
        match r {
            Some(c) => missing_column(name_set(columns@)) == Some(c as int),
            None => missing_column(name_set(columns@)) is None,
        },
        r is Some ==> r->0 < projection_spec().len(),
{
    let projection = column_projection();
    let mut c: usize = 0;
    while c < projection.len()
        invariant
            column_views(projection@) == projection_spec(),
            c <= projection@.len(),
            missing_column(name_set(columns@)) == missing_from(name_set(columns@), c as int),
        decreases projection@.len() - c,
    {
        assert(column_views(projection@).len() == projection@.len());
        let name = chars_of(projection[c].source.as_str());
        assert(name@ == projection_spec()[c as int].0);
        if !is_listed(columns, &name) {
            return Some(c);
        }
        c = c + 1;
    }
    None
}

/// Checks every input file against the projection and gives the shape of
/// their merge: the projected columns, and the sum of the files' rows. The
/// first file that lacks a projected column fails the whole merge with
/// `SchemaMismatch`.
pub fn plan_merge(files: &Vec<FileSchema>) -> (r: Result<MergeShape, PipelineError>)
    requires
        total_rows(files@) <= u64::MAX,
    ensures
        is_merge_of(r, files@),
{
    let mut rows: u64 = 0;
    let mut i: usize = 0;
    while i < files.len()
        invariant
            i <= files@.len(),
            total_rows(files@) <= u64::MAX,
            first_mismatch(files@) == mismatch_from(files@, i as int),
            rows == total_rows(files@.take(i as int)),
        decreases files@.len() - i,
    {
        match find_missing_column(&files[i].columns) {
            Some(c) => {
                return Err(PipelineError::SchemaMismatch { file_index: i, column_index: c });
            },
            None => {},
        }
        proof {
            assert(files@.take(i + 1).drop_last() =~= files@.take(i as int));
            lemma_total_rows_prefix(files@, i + 1);
        }
        rows = rows + files[i].rows;
        i = i + 1;
    }
    assert(files@.take(i as int) =~= files@);
    Ok(MergeShape { rows, columns: column_projection() })
}

/// The rows of a prefix never exceed the rows of the whole.
proof fn lemma_total_rows_prefix(files: Seq<FileSchema>, n: int)
    requires
        0 <= n <= files.len(),
    ensures
        total_rows(files.take(n)) <= total_rows(files),
    decreases files.len() - n,
{
    if n < files.len() {
        lemma_total_rows_prefix(files, n + 1);
        assert(files.take(n + 1).drop_last() =~= files.take(n));
    } else {
        assert(files.take(n) =~= files);
    }
}

proof fn lemma_no_mismatch_from(files: Seq<FileSchema>, i: int)
    requires
        0 <= i,
        forall|k: int| 0 <= k < files.len() ==> #[trigger] missing_column(name_set(files[k].columns@)) is None,
    ensures
        mismatch_from(files, i) is None,
    decreases files.len() - i,
{
    if i < files.len() {
        lemma_no_mismatch_from(files, i + 1);
    }
}

proof fn lemma_mismatch_found_from(files: Seq<FileSchema>, i: int, bad: int)
    requires
        0 <= i <= bad < files.len(),
        missing_column(name_set(files[bad].columns@)) is Some,
    ensures
        mismatch_from(files, i) is Some,
        (mismatch_from(files, i)->0).0 <= bad,
        missing_column(name_set(files[(mismatch_from(files, i)->0).0].columns@))
            == Some((mismatch_from(files, i)->0).1),
    decreases bad - i,
{
    if missing_column(name_set(files[i].columns@)) is None {
        lemma_mismatch_found_from(files, i + 1, bad);
    }
}

/// When every input file holds all projected columns, the merge succeeds:
/// its rows are the sum of the files' rows, and its columns are the four
/// projected ones in fixed order, the timestamps as dates and the location
/// ids as 64-bit integers.
pub proof fn lemma_merge_rows(files: Seq<FileSchema>)
    requires
        forall|k: int| 0 <= k < files.len() ==> #[trigger] missing_column(name_set(files[k].columns@)) is None,
    ensures
        merge_outcome(files) == Ok::<(int, Seq<(Seq<char>, ColumnType)>), (int, int)>(
            (total_rows(files), projection_spec()),
        ),
        projection_spec().len() == 4,
        projection_spec()[0].1 == ColumnType::Date,
        projection_spec()[1].1 == ColumnType::Date,
        projection_spec()[2].1 == ColumnType::Int64,
        projection_spec()[3].1 == ColumnType::Int64,
{
    lemma_no_mismatch_from(files, 0);
}

/// When some input file lacks a projected column, the merge fails as a whole
/// with the first such file (which comes no later than that one) and the
/// column it lacks, and yields no merged shape at all.
pub proof fn lemma_merge_mismatch(files: Seq<FileSchema>, bad: int)
    requires
        0 <= bad < files.len(),
        missing_column(name_set(files[bad].columns@)) is Some,
    ensures
        merge_outcome(files) is Err,
        (merge_outcome(files)->Err_0).0 <= bad,
        missing_column(name_set(files[(merge_outcome(files)->Err_0).0].columns@))
            == Some((merge_outcome(files)->Err_0).1),
        forall|r: Result<MergeShape, PipelineError>| #[trigger] is_merge_of(r, files) ==> r is Err,
{
    lemma_mismatch_found_from(files, 0, bad);
}

} // verus!

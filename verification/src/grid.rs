//! A three-level grid of numbers as a value, and back.
//!
//! Each level of nesting becomes one sequence and each number an `Int32`
//! leaf. The way back refuses every value of another shape.

use crate::value::{lemma_models, lemma_models_push, model, models, Value, ValueView};
use vstd::prelude::*;

verus! {

/// A grid of three levels: a list of planes, each a list of rows.
pub type Matrix3D<T> = Vec<Vec<Vec<T>>>;

/// The value that stands for one row: a sequence of `Int32` leaves.
pub open spec fn row_value(row: Seq<i32>) -> ValueView {
    ValueView::Sequence(Seq::new(row.len(), |i: int| ValueView::Int32(row[i])))
}

/// The value that stands for one plane: a sequence of rows.
pub open spec fn plane_value(plane: Seq<Seq<i32>>) -> ValueView {
    ValueView::Sequence(Seq::new(plane.len(), |i: int| row_value(plane[i])))
}

/// The value that stands for a grid: a sequence of planes.
pub open spec fn grid_value(grid: Seq<Seq<Seq<i32>>>) -> ValueView {
    ValueView::Sequence(Seq::new(grid.len(), |i: int| plane_value(grid[i])))
}

/// `v` is a sequence that holds `Int32` leaves and nothing else.
pub open spec fn is_row(v: ValueView) -> bool {
    v matches ValueView::Sequence(items) && forall|i: int|
        0 <= i < items.len() ==> #[trigger] items[i] is Int32
}

/// `v` is a sequence that holds rows and nothing else.
pub open spec fn is_plane(v: ValueView) -> bool {
    v matches ValueView::Sequence(items) && forall|i: int|
        0 <= i < items.len() ==> is_row(#[trigger] items[i])
}

/// `v` has the shape of a grid: a sequence that holds planes and nothing else.
pub open spec fn is_grid(v: ValueView) -> bool {
    v matches ValueView::Sequence(items) && forall|i: int|
        0 <= i < items.len() ==> is_plane(#[trigger] items[i])
}

/// The row that a value of that shape stands for.
pub open spec fn row_of(v: ValueView) -> Seq<i32>
    recommends
        is_row(v),
{
    Seq::new(v->Sequence_0.len(), |i: int| v->Sequence_0[i]->Int32_0)
}

/// The plane that a value of that shape stands for.
pub open spec fn plane_of(v: ValueView) -> Seq<Seq<i32>>
    recommends
        is_plane(v),
{
    Seq::new(v->Sequence_0.len(), |i: int| row_of(v->Sequence_0[i]))
}

/// The grid that a value of that shape stands for.
pub open spec fn grid_of(v: ValueView) -> Seq<Seq<Seq<i32>>>
    recommends
        is_grid(v),
{
    Seq::new(v->Sequence_0.len(), |i: int| plane_of(v->Sequence_0[i]))
}

/// A well-formed value that is no grid.
#[derive(Debug, Clone, Copy, PartialEq, Eq, Structural)]
pub struct ShapeMismatch;

/// The value of a grid has the shape of a grid, and stands for that grid.
pub proof fn lemma_grid_of_grid_value(grid: Seq<Seq<Seq<i32>>>)
    ensures
        is_grid(grid_value(grid)),
        grid_of(grid_value(grid)) == grid,
{
    let v = grid_value(grid);
    assert forall|i: int| 0 <= i < grid.len() implies is_plane(#[trigger] v->Sequence_0[i])
        && plane_of(v->Sequence_0[i]) == grid[i] by {
        let p = plane_value(grid[i]);
        assert forall|j: int| 0 <= j < grid[i].len() implies is_row(#[trigger] p->Sequence_0[j])
            && row_of(p->Sequence_0[j]) == grid[i][j] by {}
    }
}

/// A value of the shape of a grid is the value of the grid it stands for.
pub proof fn lemma_grid_value_of_grid(v: ValueView)
    requires
        is_grid(v),
    ensures
        grid_value(grid_of(v)) == v,
{
    let planes = v->Sequence_0;
    assert forall|i: int| 0 <= i < planes.len() implies plane_value(plane_of(planes[i]))
        == planes[i] by {
        let rows = planes[i]->Sequence_0;
        assert forall|j: int| 0 <= j < rows.len() implies row_value(row_of(rows[j])) == rows[j] by {
            let leaves = rows[j]->Sequence_0;
            assert forall|k: int| 0 <= k < leaves.len() implies ValueView::Int32(
                leaves[k]->Int32_0,
            ) == leaves[k] by {}
            assert(row_value(row_of(rows[j]))->Sequence_0 =~= leaves);
        }
        assert(plane_value(plane_of(planes[i]))->Sequence_0 =~= rows);
    }
    assert(grid_value(grid_of(v))->Sequence_0 =~= planes);
}

/// One row as a value.
fn row_to_value(row: &Vec<i32>) -> (value: Value)
    ensures
        value@ == row_value(row.deep_view()),
{
    let mut leaves: Vec<Value> = Vec::new();
    let mut i: usize = 0;
    while i < row.len()
        invariant
            i <= row.len(),
            models(leaves@) == Seq::new(i as nat, |j: int| ValueView::Int32(row@[j])),
        decreases row.len() - i,
    {
        let leaf = Value::Int32(row[i]);
        proof {
            lemma_models_push(leaves@, leaf);
            assert(models(leaves@).push(model(leaf)) =~= Seq::new(
                (i + 1) as nat,
                |j: int| ValueView::Int32(row@[j]),
            ));
        }
        leaves.push(leaf);
        i += 1;
    }
    assert(models(leaves@) =~= row_value(row.deep_view())->Sequence_0);
    Value::Sequence(leaves)
}

/// One plane as a value.
fn plane_to_value(plane: &Vec<Vec<i32>>) -> (value: Value)
    ensures
        value@ == plane_value(plane.deep_view()),
{
    let mut rows: Vec<Value> = Vec::new();
    let mut i: usize = 0;
    while i < plane.len()
        invariant
            i <= plane.len(),
            models(rows@) == Seq::new(i as nat, |j: int| row_value(plane@[j].deep_view())),
        decreases plane.len() - i,
    {
        let row = row_to_value(&plane[i]);
        proof {
            lemma_models_push(rows@, row);
            assert(models(rows@).push(model(row)) =~= Seq::new(
                (i + 1) as nat,
                |j: int| row_value(plane@[j].deep_view()),
            ));
        }
        rows.push(row);
        i += 1;
    }
    assert(models(rows@) =~= plane_value(plane.deep_view())->Sequence_0);
    Value::Sequence(rows)
}

/// The grid as a value: one sequence for each level of nesting, one `Int32`
/// for each number.
pub fn matrix3d_to_value(matrix: Matrix3D<i32>) -> (value: Value)
    ensures
        value@ == grid_value(matrix.deep_view()),
        is_grid(value@),
        grid_of(value@) == matrix.deep_view(),
{
    let mut planes: Vec<Value> = Vec::new();
    let mut i: usize = 0;
    while i < matrix.len()
        invariant
            i <= matrix.len(),
            models(planes@) == Seq::new(i as nat, |j: int| plane_value(matrix@[j].deep_view())),
        decreases matrix.len() - i,
    {
        let plane = plane_to_value(&matrix[i]);
        proof {
            lemma_models_push(planes@, plane);
            assert(models(planes@).push(model(plane)) =~= Seq::new(
                (i + 1) as nat,
                |j: int| plane_value(matrix@[j].deep_view()),
            ));
        }
        planes.push(plane);
        i += 1;
    }
    proof {
        assert(models(planes@) =~= grid_value(matrix.deep_view())->Sequence_0);
        lemma_grid_of_grid_value(matrix.deep_view());
    }
    Value::Sequence(planes)
}

/// The row that `value` stands for, if it has the shape of one.
fn value_to_row(value: &Value) -> (r: Result<Vec<i32>, ShapeMismatch>)
    ensures
        r is Ok <==> is_row(value@),
        r matches Ok(row) ==> row.deep_view() == row_of(value@),
{
    match value {
        Value::Sequence(leaves) => {
            let mut row: Vec<i32> = Vec::new();
            let mut i: usize = 0;
            proof {
                lemma_models(leaves@);
            }
            while i < leaves.len()
                invariant
                    i <= leaves.len(),
                    value@ == ValueView::Sequence(models(leaves@)),
                    models(leaves@).len() == leaves@.len(),
                    row@.len() == i,
                    forall|j: int| 0 <= j < i ==> #[trigger] models(leaves@)[j] == ValueView::Int32(row@[j]),
                decreases leaves.len() - i,
            {
                proof {
                    lemma_models(leaves@);
                }
                match &leaves[i] {
                    Value::Int32(x) => {
                        row.push(*x);
                    },
                    _ => {
                        assert(!(value@->Sequence_0[i as int] is Int32));
                        return Err(ShapeMismatch);
                    },
                }
                i += 1;
            }
            Ok(row)
        },
        _ => Err(ShapeMismatch),
    }
}

/// The plane that `value` stands for, if it has the shape of one.
fn value_to_plane(value: &Value) -> (r: Result<Vec<Vec<i32>>, ShapeMismatch>)
    ensures
        r is Ok <==> is_plane(value@),
        r matches Ok(plane) ==> plane.deep_view() == plane_of(value@),
{
    match value {
        Value::Sequence(rows) => {
            let mut plane: Vec<Vec<i32>> = Vec::new();
            let mut i: usize = 0;
            proof {
                lemma_models(rows@);
            }
            while i < rows.len()
                invariant
                    i <= rows.len(),
                    value@ == ValueView::Sequence(models(rows@)),
                    models(rows@).len() == rows@.len(),
                    plane@.len() == i,
                    forall|j: int|
                        0 <= j < i ==> is_row(#[trigger] models(rows@)[j]) && plane@[j].deep_view()
                            == row_of(models(rows@)[j]),
                decreases rows.len() - i,
            {
                proof {
                    lemma_models(rows@);
                }
                match value_to_row(&rows[i]) {
                    Ok(row) => {
                        plane.push(row);
                    },
                    Err(e) => {
                        assert(!is_row(value@->Sequence_0[i as int]));
                        return Err(e);
                    },
                }
                i += 1;
            }
            Ok(plane)
        },
        _ => Err(ShapeMismatch),
    }
}

/// The grid that `value` stands for. A value of any other shape is refused:
/// one that is no sequence of sequences of sequences, or that holds anything
/// but `Int32` on the third level.
pub fn value_to_matrix3d(value: Value) -> (r: Result<Matrix3D<i32>, ShapeMismatch>)
    ensures
        r is Ok <==> is_grid(value@),
        r matches Ok(matrix) ==> matrix.deep_view() == grid_of(value@) && grid_value(
            matrix.deep_view(),
        ) == value@,
{
    match &value {
        Value::Sequence(planes) => {
            let mut matrix: Vec<Vec<Vec<i32>>> = Vec::new();
            let mut i: usize = 0;
            proof {
                lemma_models(planes@);
            }
            while i < planes.len()
                invariant
                    i <= planes.len(),
                    value@ == ValueView::Sequence(models(planes@)),
                    models(planes@).len() == planes@.len(),
                    matrix@.len() == i,
                    forall|j: int|
                        0 <= j < i ==> is_plane(#[trigger] models(planes@)[j])
                            && matrix@[j].deep_view() == plane_of(models(planes@)[j]),
                decreases planes.len() - i,
            {
                proof {
                    lemma_models(planes@);
                }
                match value_to_plane(&planes[i]) {
                    Ok(plane) => {
                        matrix.push(plane);
                    },
                    Err(e) => {
                        assert(!is_plane(value@->Sequence_0[i as int]));
                        return Err(e);
                    },
                }
                i += 1;
            }
            proof {
                lemma_grid_value_of_grid(value@);
            }
            Ok(matrix)
        },
        _ => Err(ShapeMismatch),
    }
}

} // verus!

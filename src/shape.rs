use vstd::prelude::*;

verus! {

/// Why a batch was refused before any work was done: paired inputs
/// disagree in shape.
#[derive(Debug, Clone, Copy, PartialEq, Eq, Structural)]
pub enum ShapeError {
    /// The reading stream and its channel tags differ in length.
    StreamLengthMismatch,
    /// Two inputs that pair up row by row have different numbers of rows.
    RowCountMismatch,
    /// A row does not have the length it must align with.
    RowLengthMismatch,
}

/// The rows of a matrix, each as a sequence.
pub open spec fn rows_view<T>(rows: Seq<Vec<T>>) -> Seq<Seq<T>> {
    rows.map_values(|r: Vec<T>| r@)
}

/// Every row has exactly `n` entries.
pub open spec fn all_rows_have_len<T>(rows: Seq<Seq<T>>, n: int) -> bool {
    forall|i: int| 0 <= i < rows.len() ==> #[trigger] rows[i].len() == n
}

/// Checks that every row of `rows` has `n` entries.
pub fn rows_have_len<T>(rows: &Vec<Vec<T>>, n: usize) -> (r: bool)
    ensures
        r == all_rows_have_len(rows_view(rows@), n as int),
{
    let mut i: usize = 0;
    while i < rows.len()
        invariant
            i <= rows.len(),
            forall|j: int| 0 <= j < i ==> #[trigger] rows@[j]@.len() == n,
        decreases rows.len() - i,
    {
        if rows[i].len() != n {
            assert(rows_view(rows@)[i as int].len() != n);
            return false;
        }
        i = i + 1;
    }
    assert forall|j: int| 0 <= j < rows_view(rows@).len() implies #[trigger] rows_view(
        rows@,
    )[j].len() == n by {
        assert(rows@[j]@.len() == n);
    }
    true
}

} // verus!

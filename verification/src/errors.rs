//! The fatal error kinds of a run. None of them is recoverable mid-stream:
//! the pipeline favours fail-fast correctness over best-effort aggregation.

use vstd::prelude::*;

verus! {

/// One of the six required columns, used to name the absent one.
#[derive(Clone, Copy, Debug, PartialEq, Eq, Structural)]
pub enum ColName {
    Source,
    Direction,
    OrderedQty,
    WorkingQty,
    ExecutedQty,
    ProductId,
}

/// Why a run aborted. Rows are numbered by record position in the input;
/// the header is record 0 and the first data row is record 1.
#[derive(Clone, Copy, Debug, PartialEq, Eq, Structural)]
pub enum AggError {
    /// The header lacks the named required column.
    MissingColumn(ColName),
    /// The numbered data row has fewer fields than the highest required
    /// column index demands.
    MalformedRow(usize),
    /// A numeric field of the numbered data row is empty, holds a non-digit
    /// byte, or would push an accumulator past its width.
    MalformedNumber(usize),
    /// The underlying byte source failed; raised by callers that read.
    IoFailure,
}

} // verus!

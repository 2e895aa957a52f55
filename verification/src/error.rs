use vstd::prelude::*;

verus! {

/// Why a conversion was abandoned. Every variant is fatal: the first one met
/// ends the conversion and nothing is produced.
#[derive(Clone, Copy, Debug, PartialEq, Eq, Structural)]
pub enum Error {
    /// An address, width, offset or reset literal is not a numeral.
    MalformedNumber,
    /// The `portals` attribute is none of the three recognised forms.
    UnrecognizedPortalsSpec,
    /// A mode block holds an entry that is neither a field definition nor an
    /// adjustment.
    UnexpectedFieldEntry,
    /// A register's `name` and `cname` attributes differ.
    NameMismatch,
    /// No hint of a register yields a peripheral label.
    MissingPeripheralHint,
    /// A new peripheral group does not start above the group before it.
    AddressOrderingViolation,
    /// A register lies below the base address of the group it belongs to.
    NegativeOffset,
    /// A required element (the physical address space, a register's mode
    /// block) is absent.
    MissingStructure,
    /// A required attribute is absent.
    MissingAttribute,
    /// A bit position does not fit the 32-bit cursor, or a zero-width field
    /// stands at bit 0 and has no most significant bit.
    BitRangeOverflow,
}

/// A result with the view of what it holds on success.
pub open spec fn view_result<T: View>(r: Result<T, Error>) -> Result<T::V, Error> {
    match r {
        Ok(t) => Ok(t@),
        Err(e) => Err(e),
    }
}

/// Runs `step` over the first `n` of `items`, from `init`, and stops at the
/// first error.
pub open spec fn try_fold<S, A>(
    items: Seq<A>,
    init: S,
    step: spec_fn(S, A) -> Result<S, Error>,
    n: int,
) -> Result<S, Error>
    decreases n,
{
    if n <= 0 {
        Ok(init)
    } else {
        match try_fold(items, init, step, n - 1) {
            Ok(acc) => step(acc, items[n - 1]),
            Err(e) => Err(e),
        }
    }
}

/// Once a fold has failed, more items change nothing.
pub proof fn lemma_try_fold_error<S, A>(
    items: Seq<A>,
    init: S,
    step: spec_fn(S, A) -> Result<S, Error>,
    n: int,
    m: int,
)
    requires
        0 <= n <= m,
        try_fold(items, init, step, n) is Err,
    ensures
        try_fold(items, init, step, m) == try_fold(items, init, step, n),
    decreases m - n,
{
    if n < m {
        lemma_try_fold_error(items, init, step, n, m - 1);
    }
}

/// The index of the item at which the fold over the first `n` items
/// failed; `n` where it did not fail.
pub open spec fn failing_index<S, A>(
    items: Seq<A>,
    init: S,
    step: spec_fn(S, A) -> Result<S, Error>,
    n: int,
) -> int
    decreases n,
{
    if n <= 0 {
        0
    } else if try_fold(items, init, step, n - 1) is Err {
        failing_index(items, init, step, n - 1)
    } else if try_fold(items, init, step, n) is Err {
        n - 1
    } else {
        n
    }
}

/// A fold that has passed `i` items and fails at the next has failed at
/// index `i`, however many items follow.
pub proof fn lemma_failing_index<S, A>(
    items: Seq<A>,
    init: S,
    step: spec_fn(S, A) -> Result<S, Error>,
    i: int,
    m: int,
)
    requires
        0 <= i < m,
        try_fold(items, init, step, i) is Ok,
        try_fold(items, init, step, i + 1) is Err,
    ensures
        failing_index(items, init, step, m) == i,
    decreases m,
{
    if m > i + 1 {
        lemma_try_fold_error(items, init, step, i + 1, m - 1);
        lemma_failing_index(items, init, step, i, m - 1);
    }
}

} // verus!

//! Memory orderings of a cell, and which pairs of them a cell accepts.

use vstd::prelude::*;

verus! {

/// The memory ordering of one side (loads or stores) of a cell.
#[derive(Clone, Copy, Debug, PartialEq, Eq, Structural)]
pub enum MemoryOrder {
    Relaxed,
    Release,
    Acquire,
    AcqRel,
    SeqCst,
}

/// Why a pair of orderings was refused.
#[derive(Clone, Copy, Debug, PartialEq, Eq, Structural)]
pub enum OrderError {
    /// Loads were asked to be acquire-release.
    FetchAcqRel,
    /// Stores were asked to be acquire-release.
    StoreAcqRel,
    /// Loads were asked to be release-only.
    FetchRelease,
    /// Stores were asked to be acquire-only.
    StoreAcquire,
}

/// The first reason, if any, for which the pair (load ordering, store ordering)
/// is refused. A pair is accepted when loads are neither acquire-release nor
/// release-only and stores are neither acquire-release nor acquire-only.
pub open spec fn rejection(fetch: MemoryOrder, store: MemoryOrder) -> Option<OrderError> {
    if fetch == MemoryOrder::AcqRel {
        Some(OrderError::FetchAcqRel)
    } else if store == MemoryOrder::AcqRel {
        Some(OrderError::StoreAcqRel)
    } else if fetch == MemoryOrder::Release {
        Some(OrderError::FetchRelease)
    } else if store == MemoryOrder::Acquire {
        Some(OrderError::StoreAcquire)
    } else {
        None
    }
}

/// Checks a pair of orderings.
pub fn check_orders(fetch: MemoryOrder, store: MemoryOrder) -> (r: Result<(), OrderError>)
    ensures
        match r {
            Ok(()) => rejection(fetch, store) is None,
            Err(e) => rejection(fetch, store) == Some(e),
        },
{
    if fetch == MemoryOrder::AcqRel {
        Err(OrderError::FetchAcqRel)
    } else if store == MemoryOrder::AcqRel {
        Err(OrderError::StoreAcqRel)
    } else if fetch == MemoryOrder::Release {
        Err(OrderError::FetchRelease)
    } else if store == MemoryOrder::Acquire {
        Err(OrderError::StoreAcquire)
    } else {
        Ok(())
    }
}

} // verus!

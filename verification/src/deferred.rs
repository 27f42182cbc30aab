//! A cell for a value that is fetched late, once, and then kept.
//!
//! The cell does not fetch anything itself. It tells each reader what to do:
//! start the fetch, join the fetch that is under way, or take the value.

use vstd::prelude::*;

verus! {

/// A value that is resolved at most once.
#[derive(Clone, Debug, PartialEq, Eq)]
pub enum DeferredCell<T> {
    /// Nobody has asked for the value yet.
    Unresolved,
    /// One fetch is under way.
    Pending,
    /// The value is known, for as long as the cell lives.
    Resolved(T),
}

/// What a reader of a cell has to do.
#[derive(Clone, Copy, Debug, PartialEq, Eq, Structural)]
pub enum Access {
    /// Start the fetch: no other reader was told so, and none will be.
    Start,
    /// Wait for the fetch that another reader started.
    Join,
    /// Read the value.
    Ready,
}

impl<T> DeferredCell<T> {
    /// The value, once it is known.
    pub open spec fn value(&self) -> Option<T> {
        match self {
            DeferredCell::Resolved(v) => Some(*v),
            _ => None,
        }
    }

    /// Whether a fetch is under way.
    pub open spec fn is_pending(&self) -> bool {
        self is Pending
    }

    /// Whether nobody has asked yet.
    pub open spec fn is_unresolved(&self) -> bool {
        self is Unresolved
    }

    /// A cell without a value.
    pub fn new() -> (c: DeferredCell<T>)
        ensures
            c.is_unresolved(),
    {
        DeferredCell::Unresolved
    }

    /// A cell that holds `value` from the start.
    pub fn resolved(value: T) -> (c: DeferredCell<T>)
        ensures
            c.value() == Some(value),
    {
        DeferredCell::Resolved(value)
    }

    /// What the next reader is told.
    pub open spec fn access(&self) -> Access {
        match self {
            DeferredCell::Unresolved => Access::Start,
            DeferredCell::Pending => Access::Join,
            DeferredCell::Resolved(_) => Access::Ready,
        }
    }

    /// The cell after a reader asked: an unresolved cell is pending.
    pub open spec fn after_get(self) -> DeferredCell<T> {
        match self {
            DeferredCell::Unresolved => DeferredCell::Pending,
            other => other,
        }
    }

    /// The cell after `value` was fetched: it holds `value` unless it held
    /// a value already.
    pub open spec fn after_resolve(self, value: T) -> DeferredCell<T> {
        match self {
            DeferredCell::Resolved(kept) => DeferredCell::Resolved(kept),
            _ => DeferredCell::Resolved(value),
        }
    }

    /// Asks for the value. The first reader of an unresolved cell is told to
    /// start the fetch, and the cell is pending from then on; every reader
    /// after it joins that fetch until the value is there.
    pub fn get(&mut self) -> (a: Access)
        ensures
            a == old(self).access(),
            *final(self) == old(self).after_get(),
    {
        match self {
            DeferredCell::Unresolved => {
                *self = DeferredCell::Pending;
                Access::Start
            },
            DeferredCell::Pending => Access::Join,
            DeferredCell::Resolved(_) => Access::Ready,
        }
    }

    /// Hands the fetched value to the cell. A cell that has a value keeps
    /// it, and `value` is dropped.
    pub fn resolve(&mut self, value: T)
        ensures
            *final(self) == old(self).after_resolve(value),
    {
        match self {
            DeferredCell::Resolved(_) => {},
            _ => {
                *self = DeferredCell::Resolved(value);
            },
        }
    }

    /// The value, if it is known.
    pub fn peek(&self) -> (v: Option<&T>)
        ensures
            match v {
                Some(r) => self.value() == Some(*r),
                None => self.value().is_none(),
            },
    {
        match self {
            DeferredCell::Resolved(v) => Some(v),
            _ => None,
        }
    }
}

/// At most one fetch is started for a cell: once a reader has asked, no
/// reader is told to start a fetch, however many ask and whatever is
/// resolved in between.
pub proof fn law_one_fetch<T>(cell: DeferredCell<T>, value: T)
    ensures
        cell.after_get().access() != Access::Start,
        cell.after_get().after_get() == cell.after_get(),
        cell.after_get().after_resolve(value).access() == Access::Ready,
        cell.after_resolve(value).after_get().access() == Access::Ready,
{
}

/// A value that a cell holds stays: neither a reader nor a later fetch
/// changes it.
pub proof fn law_value_is_kept<T>(cell: DeferredCell<T>, value: T)
    requires
        cell.value().is_some(),
    ensures
        cell.after_get() == cell,
        cell.after_resolve(value) == cell,
        cell.access() == Access::Ready,
{
}

} // verus!

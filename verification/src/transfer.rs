//! Calls on the storage engine: what is asked of it, and what becomes of its
//! answer.

use vstd::prelude::*;
use crate::error::{engine_status, AccessError, ShapeFault, NC_NOERR};

verus! {

/// The part of a variable that a call moves.
#[derive(Debug)]
pub enum Extent {
    /// All of it.
    Whole,
    /// The one element at `index`.
    Element { index: Vec<usize> },
    /// The rectangular region that starts at `start` and holds `count[i]`
    /// entries along dimension `i`.
    Region { start: Vec<usize>, count: Vec<usize> },
}

/// An `Extent` as a mathematical value.
pub enum ExtentView {
    Whole,
    Element { index: Seq<usize> },
    Region { start: Seq<usize>, count: Seq<usize> },
}

impl View for Extent {
    type V = ExtentView;

    open spec fn view(&self) -> ExtentView {
        match *self {
            Extent::Whole => ExtentView::Whole,
            Extent::Element { index } => ExtentView::Element { index: index@ },
            Extent::Region { start, count } => ExtentView::Region { start: start@, count: count@ },
        }
    }
}

/// One call that the engine is to perform on a variable: which variable of
/// which scope, which part of it, and how many elements that part holds.
/// A transfer is handed out only for a part that lies within the variable.
#[derive(Debug)]
pub struct Transfer {
    pub grp_id: i32,
    pub var_id: i32,
    pub extent: Extent,
    pub total: u64,
}

/// A `Transfer` as a mathematical value.
pub struct TransferView {
    pub grp_id: i32,
    pub var_id: i32,
    pub extent: ExtentView,
    pub total: u64,
}

impl View for Transfer {
    type V = TransferView;

    open spec fn view(&self) -> TransferView {
        TransferView {
            grp_id: self.grp_id,
            var_id: self.var_id,
            extent: self.extent@,
            total: self.total,
        }
    }
}

impl TransferView {
    /// What becomes of `data`, which the engine delivered together with the
    /// code `status`: it is handed on only where the engine reported success
    /// and delivered as many elements as the transfer holds.
    pub open spec fn received<T>(self, status: i32, data: Vec<T>) -> Result<Vec<T>, AccessError> {
        if status != NC_NOERR {
            Err(AccessError::Engine(status))
        } else if data@.len() != self.total {
            Err(AccessError::Shape(ShapeFault::ValueCount))
        } else {
            Ok(data)
        }
    }
}

/// A copy of `s`.
pub fn copy_of(s: &[usize]) -> (v: Vec<usize>)
    ensures
        v@ == s@,
{
    let mut v: Vec<usize> = Vec::new();
    let mut i: usize = 0;
    while i < s.len()
        invariant
            0 <= i <= s.len(),
            v@ == s@.take(i as int),
        decreases s.len() - i,
    {
        v.push(s[i]);
        assert(s@.take(i as int + 1) =~= s@.take(i as int).push(s@[i as int]));
        i += 1;
    }
    assert(s@.take(i as int) =~= s@);
    v
}

/// Calls `Vec::capacity`. What it returns is the allocator's to decide, but
/// for this: a vector can hold at least the elements it holds.
#[verifier::external_body]
pub(crate) fn capacity_of<T>(buffer: &Vec<T>) -> (capacity: usize)
    ensures
        capacity >= buffer@.len(),
{
    buffer.capacity()
}

impl Transfer {
    /// A buffer for the engine to fill on a read: it holds exactly as many
    /// elements as the transfer moves, each a copy of `fill`. Refused where
    /// the machine cannot address that many elements.
    pub fn buffer<T: Clone>(&self, fill: T) -> (r: Result<Vec<T>, AccessError>)
        ensures
            self.total > usize::MAX ==> r == Err::<Vec<T>, AccessError>(
                AccessError::Shape(ShapeFault::TooLarge),
            ),
            self.total <= usize::MAX ==> r is Ok && r->Ok_0@.len() == self.total,
    {
        if self.total > usize::MAX as u64 {
            Err(AccessError::Shape(ShapeFault::TooLarge))
        } else {
            Ok(vec![fill; self.total as usize])
        }
    }

    /// Brings a buffer of the caller's, which can hold `capacity` elements,
    /// to the length of the transfer, for the engine to fill it in place.
    /// Refused, with the buffer left as it is, where the buffer cannot hold
    /// all elements of the transfer.
    pub fn prepare<T: Clone>(&self, capacity: usize, buffer: &mut Vec<T>, fill: T) -> (r: Result<
        (),
        AccessError,
    >)
        ensures
            capacity < self.total ==> r == Err::<(), AccessError>(
                AccessError::Capacity { needed: self.total },
            ) && final(buffer)@ == old(buffer)@,
            capacity >= self.total ==> r == Ok::<(), AccessError>(()) && final(buffer)@.len()
                == self.total,
    {
        if (capacity as u64) < self.total {
            Err(AccessError::Capacity { needed: self.total })
        } else {
            buffer.resize(self.total as usize, fill);
            Ok(())
        }
    }

    /// The outcome of a read of many elements: `data` is what the engine
    /// delivered and `status` the code it answered with. The data is handed
    /// on only where the engine reported success and delivered as many
    /// elements as the transfer holds.
    pub fn received<T>(&self, status: i32, data: Vec<T>) -> (r: Result<Vec<T>, AccessError>)
        ensures
            r == self@.received(status, data),
            r is Ok ==> r->Ok_0@.len() == self.total,
    {
        match engine_status(status) {
            Ok(()) => {
                if data.len() as u64 != self.total {
                    Err(AccessError::Shape(ShapeFault::ValueCount))
                } else {
                    Ok(data)
                }
            },
            Err(error) => Err(error),
        }
    }

    /// The outcome of a read of one element.
    pub fn received_one<T>(&self, status: i32, value: T) -> (r: Result<T, AccessError>)
        ensures
            status != NC_NOERR ==> r == Err::<T, AccessError>(AccessError::Engine(status)),
            status == NC_NOERR ==> r == Ok::<T, AccessError>(value),
    {
        match engine_status(status) {
            Ok(()) => Ok(value),
            Err(error) => Err(error),
        }
    }

    /// The outcome of a call that hands nothing back: a write, or a read
    /// into the caller's buffer.
    pub fn completed(&self, status: i32) -> (r: Result<(), AccessError>)
        ensures
            status != NC_NOERR ==> r == Err::<(), AccessError>(AccessError::Engine(status)),
            status == NC_NOERR ==> r == Ok::<(), AccessError>(()),
    {
        engine_status(status)
    }
}

} // verus!

//! Variables: named arrays of a fixed element kind, with the bounds-checked
//! operations on them.

use vstd::prelude::*;
use vstd::hash_map::StringHashMap;
use crate::array::{lemma_product_nonzero, shape_admits, Grid};
use crate::attribute::{build_cache, cache_of, Attribute, AttributeView};
use crate::dimension::{element_count, extents, lengths, product, Dimension};
use crate::error::{engine_status, AccessError, ShapeFault, NC_NOERR};
use crate::layout::{flat_offset, index_fits, lemma_flat_offset_bounds, locate};
use crate::kind::{
    NC_BYTE, NC_CHAR, NC_DOUBLE, NC_FLOAT, NC_INT, NC_INT64, NC_SHORT, NC_UINT, NC_UINT64,
    NC_USHORT,
};
use crate::shape::{
    check_index, check_slice, index_fault, lemma_index_fault_none, lemma_out_of_bounds,
    lemma_region_size_bounds, lemma_slice_fault_none, out_of_bounds, region_size, slice_fault,
};
use crate::transfer::{capacity_of, copy_of, Extent, ExtentView, Transfer, TransferView};

verus! {

/// A named array within a scope: its element kind, its dimensions in their
/// declared order (the last one varies fastest in flat data), the number of
/// elements it holds, and a cache of its attributes.
pub struct Variable {
    name: String,
    attributes: StringHashMap<Attribute>,
    dimensions: Vec<Dimension>,
    vartype: i32,
    id: i32,
    len: u64,
    grp_id: i32,
}

/// What an operation decided, with the transfer it may have handed out taken
/// as a mathematical value.
pub open spec fn decided(r: Result<Transfer, AccessError>) -> Result<TransferView, AccessError> {
    match r {
        Ok(transfer) => Ok(transfer@),
        Err(error) => Err(error),
    }
}

/// What becomes of a decision where the elements are to go into a buffer of
/// the caller's that can hold `capacity` of them: a transfer is refused
/// where the buffer cannot hold all its elements.
pub open spec fn buffered(plan: Result<TransferView, AccessError>, capacity: usize) -> Result<
    TransferView,
    AccessError,
> {
    match plan {
        Ok(transfer) => if capacity < transfer.total {
            Err(AccessError::Capacity { needed: transfer.total })
        } else {
            Ok(transfer)
        },
        Err(error) => Err(error),
    }
}

/// What becomes of a decision where `given` values are at hand to be
/// written: a transfer is refused where it does not hold exactly that many
/// elements.
pub open spec fn supplied(plan: Result<TransferView, AccessError>, given: nat) -> Result<
    TransferView,
    AccessError,
> {
    match plan {
        Ok(transfer) => if given != transfer.total {
            Err(AccessError::Shape(ShapeFault::ValueCount))
        } else {
            Ok(transfer)
        },
        Err(error) => Err(error),
    }
}

/// The lengths of `dims` as the lengths of an array's axes.
pub open spec fn axis_lengths(dims: Seq<Dimension>) -> Seq<usize> {
    Seq::new(dims.len(), |i: int| dims[i].len as usize)
}

/// Whether an array with `dims` as its axes can be made of `n` elements:
/// every length fits a `usize`, and the shape admits `n` elements.
pub open spec fn grid_admitted(dims: Seq<Dimension>, n: nat) -> bool {
    &&& forall|i: int| 0 <= i < dims.len() ==> (#[trigger] dims[i]).len <= usize::MAX
    &&& shape_admits(axis_lengths(dims), n)
}

impl Variable {
    /// A variable holds as many elements as its dimensions hold together.
    #[verifier::type_invariant]
    pub closed spec fn well_formed(&self) -> bool {
        self.len == product(lengths(self.dimensions@))
    }

    /// The name of the variable, the key under which its scope holds it.
    pub closed spec fn spec_name(&self) -> Seq<char> {
        self.name@
    }

    /// The cache of attributes, each under its name.
    pub closed spec fn spec_attributes(&self) -> Map<Seq<char>, Attribute> {
        self.attributes@
    }

    /// The dimensions, in their declared order.
    pub closed spec fn spec_dimensions(&self) -> Seq<Dimension> {
        self.dimensions@
    }

    /// The tag of the element kind.
    pub closed spec fn spec_vartype(&self) -> i32 {
        self.vartype
    }

    /// The id by which the engine knows the variable within its scope.
    pub closed spec fn spec_id(&self) -> i32 {
        self.id
    }

    /// The number of elements.
    pub closed spec fn spec_len(&self) -> u64 {
        self.len
    }

    /// The id of the scope that owns the variable.
    pub closed spec fn spec_grp_id(&self) -> i32 {
        self.grp_id
    }

    /// The call that moves `extent`, holding `total` elements, of this
    /// variable.
    pub open spec fn transfer(&self, extent: ExtentView, total: int) -> TransferView {
        TransferView {
            grp_id: self.spec_grp_id(),
            var_id: self.spec_id(),
            extent: extent,
            total: total as u64,
        }
    }

    /// The variable named `name` of scope `grp_id`, with the given element
    /// kind, id and dimensions, and with a cache of the listed attributes.
    /// There is no such variable where the dimensions hold more elements
    /// together than a `u64` can count.
    pub fn new(
        name: String,
        vartype: i32,
        id: i32,
        grp_id: i32,
        dimensions: Vec<Dimension>,
        attributes: &Vec<Attribute>,
    ) -> (r: Result<Variable, AccessError>)
        ensures
            product(lengths(dimensions@)) > u64::MAX ==> r == Err::<Variable, AccessError>(
                AccessError::Shape(ShapeFault::TooLarge),
            ),
            product(lengths(dimensions@)) <= u64::MAX ==> {
                &&& r is Ok
                &&& r->Ok_0.well_formed()
                &&& r->Ok_0.spec_name() == name@
                &&& r->Ok_0.spec_vartype() == vartype
                &&& r->Ok_0.spec_id() == id
                &&& r->Ok_0.spec_grp_id() == grp_id
                &&& r->Ok_0.spec_dimensions() == dimensions@
                &&& r->Ok_0.spec_len() == product(lengths(dimensions@))
                &&& r->Ok_0.spec_attributes() == cache_of(attributes@)
            },
    {
        match element_count(&dimensions) {
            Some(len) => Ok(
                Variable {
                    name: name,
                    attributes: build_cache(attributes),
                    dimensions: dimensions,
                    vartype: vartype,
                    id: id,
                    len: len,
                    grp_id: grp_id,
                },
            ),
            None => Err(AccessError::Shape(ShapeFault::TooLarge)),
        }
    }

    /// A well-formed variable holds as many elements as its dimensions hold
    /// together.
    pub proof fn lemma_well_formed(self)
        requires
            self.well_formed(),
        ensures
            self.spec_len() == product(lengths(self.spec_dimensions())),
    {
    }

    /// The name of the variable.
    pub fn name(&self) -> (r: &String)
        ensures
            r@ == self.spec_name(),
    {
        &self.name
    }

    /// The dimensions, in their declared order.
    pub fn dimensions(&self) -> (r: &Vec<Dimension>)
        ensures
            r@ == self.spec_dimensions(),
    {
        &self.dimensions
    }

    /// The tag of the element kind.
    pub fn vartype(&self) -> (r: i32)
        ensures
            r == self.spec_vartype(),
    {
        self.vartype
    }

    /// The id by which the engine knows the variable within its scope.
    pub fn id(&self) -> (r: i32)
        ensures
            r == self.spec_id(),
    {
        self.id
    }

    /// The number of elements: the product of the lengths of the
    /// dimensions.
    pub fn len(&self) -> (r: u64)
        ensures
            r == self.spec_len(),
            r == product(lengths(self.spec_dimensions())),
    {
        proof {
            use_type_invariant(self);
        }
        self.len
    }

    /// The id of the scope that owns the variable.
    pub fn grp_id(&self) -> (r: i32)
        ensures
            r == self.spec_grp_id(),
    {
        self.grp_id
    }

    /// The decision on moving the whole variable.
    pub open spec fn whole_access(&self) -> Result<TransferView, AccessError> {
        Ok(self.transfer(ExtentView::Whole, self.spec_len() as int))
    }

    /// The decision on moving the whole variable as elements of kind
    /// `nc_type`: refused where the variable is of another kind, unless the
    /// caller lets the engine cast.
    pub open spec fn exact_access(&self, nc_type: i32, cast: bool) -> Result<
        TransferView,
        AccessError,
    > {
        if !cast && self.spec_vartype() != nc_type {
            Err(AccessError::TypeMismatch)
        } else {
            self.whole_access()
        }
    }

    /// The decision on moving the one element at `indices`.
    pub open spec fn element_access(&self, indices: Seq<usize>) -> Result<
        TransferView,
        AccessError,
    > {
        match index_fault(self.spec_dimensions(), indices) {
            Some(fault) => Err(AccessError::Shape(fault)),
            None => Ok(self.transfer(ExtentView::Element { index: indices }, 1)),
        }
    }

    /// The decision on moving the region that starts at `indices` and
    /// extends over `slice_len`.
    pub open spec fn region_access(&self, indices: Seq<usize>, slice_len: Seq<usize>) -> Result<
        TransferView,
        AccessError,
    > {
        match slice_fault(self.spec_dimensions(), indices, slice_len) {
            Some(fault) => Err(AccessError::Shape(fault)),
            None => Ok(
                self.transfer(
                    ExtentView::Region { start: indices, count: slice_len },
                    region_size(slice_len),
                ),
            ),
        }
    }

    /// A read of the whole variable. It moves as many elements as the
    /// variable holds.
    pub fn values(&self) -> (r: Transfer)
        ensures
            Ok::<TransferView, AccessError>(r@) == self.whole_access(),
            r.total == self.spec_len(),
    {
        Transfer { grp_id: self.grp_id, var_id: self.id, extent: Extent::Whole, total: self.len }
    }

    /// A read of the whole variable as elements of kind `nc_type`.
    fn values_as(&self, nc_type: i32, cast: bool) -> (r: Result<Transfer, AccessError>)
        ensures
            decided(r) == self.exact_access(nc_type, cast),
    {
        if !cast && self.vartype != nc_type {
            Err(AccessError::TypeMismatch)
        } else {
            Ok(self.values())
        }
    }

    /// A read of the whole variable as characters.
    pub fn get_char(&self, cast: bool) -> (r: Result<Transfer, AccessError>)
        ensures
            decided(r) == self.exact_access(NC_CHAR, cast),
    {
        self.values_as(NC_CHAR, cast)
    }

    /// A read of the whole variable as characters, delivered as signed
    /// bytes.
    pub fn get_char_str(&self, cast: bool) -> (r: Result<Transfer, AccessError>)
        ensures
            decided(r) == self.exact_access(NC_CHAR, cast),
    {
        self.values_as(NC_CHAR, cast)
    }

    /// A read of the whole variable as signed 8-bit integers.
    pub fn get_byte(&self, cast: bool) -> (r: Result<Transfer, AccessError>)
        ensures
            decided(r) == self.exact_access(NC_BYTE, cast),
    {
        self.values_as(NC_BYTE, cast)
    }

    /// A read of the whole variable as signed 16-bit integers.
    pub fn get_short(&self, cast: bool) -> (r: Result<Transfer, AccessError>)
        ensures
            decided(r) == self.exact_access(NC_SHORT, cast),
    {
        self.values_as(NC_SHORT, cast)
    }

    /// A read of the whole variable as unsigned 16-bit integers.
    pub fn get_ushort(&self, cast: bool) -> (r: Result<Transfer, AccessError>)
        ensures
            decided(r) == self.exact_access(NC_USHORT, cast),
    {
        self.values_as(NC_USHORT, cast)
    }

    /// A read of the whole variable as signed 32-bit integers.
    pub fn get_int(&self, cast: bool) -> (r: Result<Transfer, AccessError>)
        ensures
            decided(r) == self.exact_access(NC_INT, cast),
    {
        self.values_as(NC_INT, cast)
    }

    /// A read of the whole variable as unsigned 32-bit integers.
    pub fn get_uint(&self, cast: bool) -> (r: Result<Transfer, AccessError>)
        ensures
            decided(r) == self.exact_access(NC_UINT, cast),
    {
        self.values_as(NC_UINT, cast)
    }

    /// A read of the whole variable as signed 64-bit integers.
    pub fn get_int64(&self, cast: bool) -> (r: Result<Transfer, AccessError>)
        ensures
            decided(r) == self.exact_access(NC_INT64, cast),
    {
        self.values_as(NC_INT64, cast)
    }

    /// A read of the whole variable as unsigned 64-bit integers.
    pub fn get_uint64(&self, cast: bool) -> (r: Result<Transfer, AccessError>)
        ensures
            decided(r) == self.exact_access(NC_UINT64, cast),
    {
        self.values_as(NC_UINT64, cast)
    }

    /// A read of the whole variable as 32-bit floating point numbers.
    pub fn get_float(&self, cast: bool) -> (r: Result<Transfer, AccessError>)
        ensures
            decided(r) == self.exact_access(NC_FLOAT, cast),
    {
        self.values_as(NC_FLOAT, cast)
    }

    /// A read of the whole variable as 64-bit floating point numbers.
    pub fn get_double(&self, cast: bool) -> (r: Result<Transfer, AccessError>)
        ensures
            decided(r) == self.exact_access(NC_DOUBLE, cast),
    {
        self.values_as(NC_DOUBLE, cast)
    }

    /// A read of the whole variable into `buffer`, which can hold `capacity`
    /// elements. Refused, with the buffer left as it is, where the buffer
    /// cannot hold the whole variable; else the buffer is brought to the
    /// length of the variable, for the engine to fill it in place.
    pub fn read_values_within<T: Clone>(&self, capacity: usize, buffer: &mut Vec<T>, fill: T) -> (r:
        Result<Transfer, AccessError>)
        ensures
            decided(r) == buffered(self.whole_access(), capacity),
            capacity < self.spec_len() ==> r is Err && r->Err_0 == (AccessError::Capacity {
                needed: self.spec_len(),
            }),
            r is Err ==> final(buffer)@ == old(buffer)@,
            r is Ok ==> final(buffer)@.len() == self.spec_len(),
    {
        let transfer = self.values();
        match transfer.prepare(capacity, buffer, fill) {
            Ok(()) => Ok(transfer),
            Err(error) => Err(error),
        }
    }

    /// A read of the whole variable into `buffer`, decided on the capacity
    /// that the buffer has. A buffer that already holds as many elements as
    /// the variable is never refused.
    pub fn read_values_into_buffer<T: Clone>(&self, buffer: &mut Vec<T>, fill: T) -> (r: Result<
        Transfer,
        AccessError,
    >)
        ensures
            exists|capacity: usize|
                capacity >= old(buffer)@.len() && decided(r) == #[trigger] buffered(
                    self.whole_access(),
                    capacity,
                ),
            old(buffer)@.len() >= self.spec_len() ==> r is Ok,
            r is Err ==> final(buffer)@ == old(buffer)@,
            r is Ok ==> final(buffer)@.len() == self.spec_len(),
    {
        let capacity = capacity_of(buffer);
        self.read_values_within(capacity, buffer, fill)
    }

    /// A read of the one element at `indices`. Refused where `indices` has
    /// not one entry per dimension, or an entry that lies at or beyond the
    /// length of its dimension.
    pub fn value_at(&self, indices: &[usize]) -> (r: Result<Transfer, AccessError>)
        ensures
            decided(r) == self.element_access(indices@),
            out_of_bounds(self.spec_dimensions(), indices@) ==> r is Err && r->Err_0 is Shape,
    {
        proof {
            if out_of_bounds(self.dimensions@, indices@) {
                lemma_out_of_bounds(self.dimensions@, indices@, indices@);
            }
        }
        match check_index(&self.dimensions, indices) {
            Ok(()) => Ok(
                Transfer {
                    grp_id: self.grp_id,
                    var_id: self.id,
                    extent: Extent::Element { index: copy_of(indices) },
                    total: 1,
                },
            ),
            Err(fault) => Err(AccessError::Shape(fault)),
        }
    }

    /// The position, in the flat data of a read of the whole variable, of
    /// the element at `indices`: the last dimension varies fastest. Refused
    /// as a read of that element is.
    pub fn flat_offset(&self, indices: &[usize]) -> (r: Result<u64, AccessError>)
        ensures
            match index_fault(self.spec_dimensions(), indices@) {
                Some(fault) => r == Err::<u64, AccessError>(AccessError::Shape(fault)),
                None => r is Ok && r->Ok_0 == flat_offset(self.spec_dimensions(), indices@)
                    && r->Ok_0 < self.spec_len(),
            },
    {
        proof {
            use_type_invariant(self);
        }
        match locate(&self.dimensions, indices) {
            Ok(offset) => Ok(offset),
            Err(fault) => Err(AccessError::Shape(fault)),
        }
    }

    /// A read of the region that starts at `indices` and extends over
    /// `slice_len`. Refused where the region does not lie within the
    /// variable; else it moves as many elements as the product of
    /// `slice_len` says, which are no more than the variable holds.
    pub fn values_at(&self, indices: &[usize], slice_len: &[usize]) -> (r: Result<
        Transfer,
        AccessError,
    >)
        ensures
            decided(r) == self.region_access(indices@, slice_len@),
            out_of_bounds(self.spec_dimensions(), indices@) ==> r is Err && r->Err_0 is Shape,
            r is Ok ==> 1 <= region_size(slice_len@) == r->Ok_0.total <= self.spec_len(),
    {
        proof {
            use_type_invariant(self);
            lemma_slice_fault_none(self.dimensions@, indices@, slice_len@);
            if slice_fault(self.dimensions@, indices@, slice_len@) is None {
                lemma_region_size_bounds(self.dimensions@, indices@, slice_len@);
            }
            if out_of_bounds(self.dimensions@, indices@) {
                lemma_out_of_bounds(self.dimensions@, indices@, slice_len@);
            }
        }
        match check_slice(&self.dimensions, indices, slice_len) {
            Ok(total) => Ok(
                Transfer {
                    grp_id: self.grp_id,
                    var_id: self.id,
                    extent: Extent::Region { start: copy_of(indices), count: copy_of(slice_len) },
                    total: total,
                },
            ),
            Err(fault) => Err(AccessError::Shape(fault)),
        }
    }

    /// A read of a region into `buffer`, which can hold `capacity`
    /// elements. Refused, with the buffer left as it is, where the region
    /// does not lie within the variable, and where the buffer cannot hold
    /// the region; else the buffer is brought to the length of the region,
    /// for the engine to fill it in place.
    pub fn read_slice_within<T: Clone>(
        &self,
        indices: &[usize],
        slice_len: &[usize],
        capacity: usize,
        buffer: &mut Vec<T>,
        fill: T,
    ) -> (r: Result<Transfer, AccessError>)
        ensures
            decided(r) == buffered(self.region_access(indices@, slice_len@), capacity),
            out_of_bounds(self.spec_dimensions(), indices@) ==> r is Err && r->Err_0 is Shape,
            slice_fault(self.spec_dimensions(), indices@, slice_len@) is None && capacity
                < region_size(slice_len@) ==> r is Err && r->Err_0 is Capacity,
            r is Err ==> final(buffer)@ == old(buffer)@,
            r is Ok ==> final(buffer)@.len() == region_size(slice_len@),
    {
        match self.values_at(indices, slice_len) {
            Ok(transfer) => {
                match transfer.prepare(capacity, buffer, fill) {
                    Ok(()) => Ok(transfer),
                    Err(error) => Err(error),
                }
            },
            Err(error) => Err(error),
        }
    }

    /// A read of a region into `buffer`, decided on the capacity that the
    /// buffer has. A region that lies within the variable is never refused
    /// to a buffer that already holds as many elements as the region.
    pub fn read_slice_into_buffer<T: Clone>(
        &self,
        indices: &[usize],
        slice_len: &[usize],
        buffer: &mut Vec<T>,
        fill: T,
    ) -> (r: Result<Transfer, AccessError>)
        ensures
            exists|capacity: usize|
                capacity >= old(buffer)@.len() && decided(r) == #[trigger] buffered(
                    self.region_access(indices@, slice_len@),
                    capacity,
                ),
            out_of_bounds(self.spec_dimensions(), indices@) ==> r is Err && r->Err_0 is Shape,
            slice_fault(self.spec_dimensions(), indices@, slice_len@) is None && old(buffer)@.len()
                >= region_size(slice_len@) ==> r is Ok,
            r is Err ==> final(buffer)@ == old(buffer)@,
            r is Ok ==> final(buffer)@.len() == region_size(slice_len@),
    {
        proof {
            use_type_invariant(self);
            lemma_slice_fault_none(self.dimensions@, indices@, slice_len@);
            if slice_fault(self.dimensions@, indices@, slice_len@) is None {
                lemma_region_size_bounds(self.dimensions@, indices@, slice_len@);
            }
        }
        let capacity = capacity_of(buffer);
        self.read_slice_within(indices, slice_len, capacity, buffer, fill)
    }

    /// A write of the one element at `indices`. Refused as a read of that
    /// element is.
    pub fn put_value_at(&self, indices: &[usize]) -> (r: Result<Transfer, AccessError>)
        ensures
            decided(r) == self.element_access(indices@),
            out_of_bounds(self.spec_dimensions(), indices@) ==> r is Err && r->Err_0 is Shape,
    {
        self.value_at(indices)
    }

    /// A write of `values` to the region that starts at `indices` and
    /// extends over `slice_len`. Refused where the region does not lie
    /// within the variable, and where `values` are not as many as the region
    /// holds.
    pub fn put_values_at<T>(&self, values: &[T], indices: &[usize], slice_len: &[usize]) -> (r:
        Result<Transfer, AccessError>)
        ensures
            decided(r) == supplied(self.region_access(indices@, slice_len@), values@.len()),
            out_of_bounds(self.spec_dimensions(), indices@) ==> r is Err && r->Err_0 is Shape,
    {
        match self.values_at(indices, slice_len) {
            Ok(transfer) => {
                if values.len() as u64 != transfer.total {
                    Err(AccessError::Shape(ShapeFault::ValueCount))
                } else {
                    Ok(transfer)
                }
            },
            Err(error) => Err(error),
        }
    }

    /// Whether `other` is this variable but for its cache of attributes.
    pub open spec fn same_array(&self, other: &Variable) -> bool {
        &&& self.spec_name() == other.spec_name()
        &&& self.spec_dimensions() == other.spec_dimensions()
        &&& self.spec_vartype() == other.spec_vartype()
        &&& self.spec_id() == other.spec_id()
        &&& self.spec_len() == other.spec_len()
        &&& self.spec_grp_id() == other.spec_grp_id()
    }

    /// Records the outcome of writing the attribute `name`, whose value is
    /// of type `attrtype`, to the engine, which answered with `status`.
    /// Where the write failed the cache stays as it is; else the attribute
    /// enters the cache under its name, in place of any of that name.
    pub fn add_attribute(&mut self, name: &str, attrtype: i32, status: i32) -> (r: Result<
        (),
        AccessError,
    >)
        ensures
            final(self).same_array(old(self)),
            status != NC_NOERR ==> r == Err::<(), AccessError>(AccessError::Engine(status))
                && final(self).spec_attributes() == old(self).spec_attributes(),
            status == NC_NOERR ==> {
                &&& r == Ok::<(), AccessError>(())
                &&& final(self).spec_attributes().dom() == old(self).spec_attributes().dom().insert(
                    name@,
                )
                &&& final(self).spec_attributes()[name@]@ == (AttributeView {
                    name: name@,
                    attrtype: attrtype,
                    id: 0,
                    var_id: old(self).spec_id(),
                    file_id: old(self).spec_grp_id(),
                })
                &&& forall|other: Seq<char>|
                    other != name@ && old(self).spec_attributes().contains_key(other)
                        ==> #[trigger] final(self).spec_attributes()[other]
                        == old(self).spec_attributes()[other]
            },
    {
        proof {
            use_type_invariant(&*self);
        }
        match engine_status(status) {
            Ok(()) => {},
            Err(error) => {
                return Err(error);
            },
        }
        let attribute = Attribute {
            name: name.to_owned(),
            attrtype: attrtype,
            id: 0,
            var_id: self.id,
            file_id: self.grp_id,
        };
        let mut cache: StringHashMap<Attribute> = StringHashMap::new();
        std::mem::swap(&mut self.attributes, &mut cache);
        cache.insert(name.to_owned(), attribute);
        self.attributes = cache;
        Ok(())
    }

    /// Decides on the outcome of defining a fill value, to which the engine
    /// answered with `status`. Where it succeeded, the attributes of the
    /// variable may be others than before: the caller lists them anew and
    /// hands them to `update_attributes`.
    pub fn set_fill_value(&self, status: i32) -> (r: Result<(), AccessError>)
        ensures
            status != NC_NOERR ==> r == Err::<(), AccessError>(AccessError::Engine(status)),
            status == NC_NOERR ==> r == Ok::<(), AccessError>(()),
    {
        engine_status(status)
    }

    /// Brings the cache in line with the engine, which answered the count
    /// of the variable's attributes with `status` and then listed them.
    /// Where the count failed the cache stays as it is; else it is built
    /// anew from the listed attributes alone.
    pub fn update_attributes(&mut self, status: i32, listed: &Vec<Attribute>) -> (r: Result<
        (),
        AccessError,
    >)
        ensures
            final(self).same_array(old(self)),
            status != NC_NOERR ==> r == Err::<(), AccessError>(AccessError::Engine(status))
                && final(self).spec_attributes() == old(self).spec_attributes(),
            status == NC_NOERR ==> r == Ok::<(), AccessError>(())
                && final(self).spec_attributes() == cache_of(listed@),
    {
        proof {
            use_type_invariant(&*self);
        }
        match engine_status(status) {
            Ok(()) => {},
            Err(error) => {
                return Err(error);
            },
        }
        self.attributes = build_cache(listed);
        Ok(())
    }

    /// Shapes `values`, the outcome of a read of the whole variable, into an
    /// array with the variable's dimensions as its axes. Refused where the
    /// values are not as many as the variable holds, and where no array of
    /// that shape can be made.
    pub fn as_array<T>(&self, values: Vec<T>) -> (r: Result<Grid<T>, AccessError>)
        ensures
            match r {
                Ok(grid) => {
                    &&& values@.len() == self.spec_len()
                    &&& grid_admitted(self.spec_dimensions(), values@.len())
                    &&& grid.shape@ == axis_lengths(self.spec_dimensions())
                    &&& grid.items@ == values@
                },
                Err(error) => if values@.len() != self.spec_len() {
                    error == AccessError::Shape(ShapeFault::ValueCount)
                } else {
                    error == AccessError::Shape(ShapeFault::TooLarge) && !grid_admitted(
                        self.spec_dimensions(),
                        values@.len(),
                    )
                },
            },
    {
        if values.len() as u64 != self.len {
            return Err(AccessError::Shape(ShapeFault::ValueCount));
        }
        let mut shape: Vec<usize> = Vec::new();
        let mut i: usize = 0;
        while i < self.dimensions.len()
            invariant
                0 <= i <= self.dimensions@.len(),
                values@.len() == self.len,
                shape@ == axis_lengths(self.dimensions@).take(i as int),
                forall|j: int| 0 <= j < i ==> (#[trigger] self.dimensions@[j]).len <= usize::MAX,
            decreases self.dimensions@.len() - i,
        {
            let len = self.dimensions[i].len;
            if len > usize::MAX as u64 {
                assert(self.dimensions@[i as int].len > usize::MAX);
                return Err(AccessError::Shape(ShapeFault::TooLarge));
            }
            shape.push(len as usize);
            assert(axis_lengths(self.dimensions@).take(i as int + 1) =~= axis_lengths(
                self.dimensions@,
            ).take(i as int).push(len as usize));
            i += 1;
        }
        assert(axis_lengths(self.dimensions@).take(i as int) =~= axis_lengths(self.dimensions@));
        match Grid::from_shape(shape, values) {
            Some(grid) => Ok(grid),
            None => Err(AccessError::Shape(ShapeFault::TooLarge)),
        }
    }

    /// Shapes `values`, the outcome of a read of the region that starts at
    /// `indices` and extends over `slice_len`, into an array with
    /// `slice_len` as the lengths of its axes. Refused where the region does
    /// not lie within the variable, where the values are not as many as the
    /// region holds, and where no array of that shape can be made.
    pub fn array_at<T>(&self, indices: &[usize], slice_len: &[usize], values: Vec<T>) -> (r: Result<
        Grid<T>,
        AccessError,
    >)
        ensures
            match r {
                Ok(grid) => {
                    &&& slice_fault(self.spec_dimensions(), indices@, slice_len@) is None
                    &&& values@.len() == region_size(slice_len@)
                    &&& region_size(slice_len@) <= isize::MAX
                    &&& grid.shape@ == slice_len@
                    &&& grid.items@ == values@
                },
                Err(error) => match slice_fault(self.spec_dimensions(), indices@, slice_len@) {
                    Some(fault) => error == AccessError::Shape(fault),
                    None => if values@.len() != region_size(slice_len@) {
                        error == AccessError::Shape(ShapeFault::ValueCount)
                    } else {
                        error == AccessError::Shape(ShapeFault::TooLarge) && region_size(slice_len@)
                            > isize::MAX
                    },
                },
            },
            out_of_bounds(self.spec_dimensions(), indices@) ==> r is Err && r->Err_0 is Shape,
    {
        let transfer = match self.values_at(indices, slice_len) {
            Ok(transfer) => transfer,
            Err(error) => {
                return Err(error);
            },
        };
        if values.len() as u64 != transfer.total {
            return Err(AccessError::Shape(ShapeFault::ValueCount));
        }
        proof {
            lemma_slice_fault_none(self.dimensions@, indices@, slice_len@);
            let c = extents(slice_len@);
            assert forall|j: int| 0 <= j < c.len() implies #[trigger] c[j] != 0 by {
                assert(indices@[j] < self.dimensions@[j].len);
            }
            lemma_product_nonzero(c);
        }
        match Grid::from_shape(copy_of(slice_len), values) {
            Some(grid) => Ok(grid),
            None => Err(AccessError::Shape(ShapeFault::TooLarge)),
        }
    }

    /// A read of the whole variable that succeeds hands on exactly as many
    /// elements as the variable holds, which is the product of the lengths
    /// of its dimensions.
    pub proof fn lemma_whole_read_is_full<T>(self, status: i32, data: Vec<T>)
        requires
            self.well_formed(),
        ensures
            self.whole_access() is Ok,
            self.whole_access()->Ok_0.received(status, data) is Ok ==> data@.len()
                == self.spec_len() == product(lengths(self.spec_dimensions())),
    {
    }

    /// Whatever else holds of them, an index with an entry at or beyond the
    /// length of its dimension is refused by every addressed operation, and
    /// with a fault of the shape.
    pub proof fn lemma_out_of_bounds_refused(
        self,
        indices: Seq<usize>,
        slice_len: Seq<usize>,
        capacity: usize,
        given: nat,
    )
        requires
            out_of_bounds(self.spec_dimensions(), indices),
        ensures
            self.element_access(indices) is Err,
            self.element_access(indices)->Err_0 is Shape,
            self.region_access(indices, slice_len) is Err,
            self.region_access(indices, slice_len)->Err_0 is Shape,
            buffered(self.region_access(indices, slice_len), capacity) is Err,
            buffered(self.region_access(indices, slice_len), capacity)->Err_0 is Shape,
            supplied(self.region_access(indices, slice_len), given) is Err,
            supplied(self.region_access(indices, slice_len), given)->Err_0 is Shape,
    {
        lemma_out_of_bounds(self.spec_dimensions(), indices, slice_len);
    }

    /// A region that lies within the variable is not read into a buffer
    /// that cannot hold it: the read is refused for want of capacity, and
    /// the refusal names the number of elements that the region holds.
    pub proof fn lemma_small_buffer_refused(
        self,
        indices: Seq<usize>,
        slice_len: Seq<usize>,
        capacity: usize,
    )
        requires
            self.well_formed(),
            slice_fault(self.spec_dimensions(), indices, slice_len) is None,
            capacity < region_size(slice_len),
        ensures
            buffered(self.region_access(indices, slice_len), capacity) == Err::<
                TransferView,
                AccessError,
            >(AccessError::Capacity { needed: region_size(slice_len) as u64 }),
            region_size(slice_len) <= u64::MAX,
    {
        lemma_slice_fault_none(self.spec_dimensions(), indices, slice_len);
        lemma_region_size_bounds(self.spec_dimensions(), indices, slice_len);
    }

    /// Where a write of `given` values to a region is accepted, a read of
    /// that region is accepted too, asks the engine for the very region that
    /// was written, and hands on what the engine delivers exactly where
    /// that is `given` elements.
    pub proof fn lemma_read_back_same_region<T>(
        self,
        indices: Seq<usize>,
        slice_len: Seq<usize>,
        given: nat,
        data: Vec<T>,
    )
        requires
            self.well_formed(),
            supplied(self.region_access(indices, slice_len), given) is Ok,
        ensures
            self.region_access(indices, slice_len) == supplied(
                self.region_access(indices, slice_len),
                given,
            ),
            self.region_access(indices, slice_len)->Ok_0.total == given == region_size(slice_len),
            self.region_access(indices, slice_len)->Ok_0.received(NC_NOERR, data) is Ok
                <==> data@.len() == given,
    {
        lemma_slice_fault_none(self.spec_dimensions(), indices, slice_len);
        lemma_region_size_bounds(self.spec_dimensions(), indices, slice_len);
    }

    /// The element that a read of one element asks for stands, in the flat
    /// data of a read of the whole variable, at the flat offset of its
    /// index; that offset lies within the flat data.
    pub proof fn lemma_element_within_whole(self, indices: Seq<usize>)
        requires
            self.well_formed(),
            self.element_access(indices) is Ok,
        ensures
            index_fits(self.spec_dimensions(), indices),
            0 <= flat_offset(self.spec_dimensions(), indices) < self.spec_len(),
            self.whole_access()->Ok_0.total == self.spec_len(),
    {
        lemma_index_fault_none(self.spec_dimensions(), indices);
        lemma_flat_offset_bounds(self.spec_dimensions(), indices);
    }

    /// The cached attribute of that name, if there is one.
    pub fn attribute(&self, name: &str) -> (r: Option<&Attribute>)
        ensures
            match r {
                Some(a) => self.spec_attributes().contains_key(name@) && *a
                    == self.spec_attributes()[name@],
                None => !self.spec_attributes().contains_key(name@),
            },
    {
        self.attributes.get(name)
    }

    /// The number of attributes in the cache.
    pub fn attribute_count(&self) -> (r: usize)
        ensures
            r == self.spec_attributes().len(),
    {
        self.attributes.len()
    }
}

} // verus!

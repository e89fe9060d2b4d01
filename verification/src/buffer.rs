//! Buffers: the data that an evaluation hands on, owned or borrowed.

use vstd::prelude::*;
use vstd::slice::slice_to_vec;
use vstd::std_specs::convert::FromSpecImpl;
use crate::dtype::CDatatype;
use crate::error::{bounds_index, message_index, Error};

verus! {

/// Data on the host, owned or borrowed.
pub enum SliceConverter<'a, T> {
    Vec(Vec<T>),
    Slice(&'a [T]),
}

impl<'a, T> View for SliceConverter<'a, T> {
    type V = Seq<T>;

    open spec fn view(&self) -> Seq<T> {
        match self {
            SliceConverter::Vec(data) => data@,
            SliceConverter::Slice(data) => data@,
        }
    }
}

impl<'a, T: Copy> SliceConverter<'a, T> {
    /// The data as an owned vector: the vector itself where it is owned, else a copy.
    pub fn into_vec(self) -> (data: Vec<T>)
        ensures
            data@ == self@,
    {
        match self {
            SliceConverter::Vec(data) => data,
            SliceConverter::Slice(data) => slice_to_vec(data),
        }
    }

    /// The number of elements.
    pub fn size(&self) -> (n: usize)
        ensures
            n == self@.len(),
    {
        match self {
            SliceConverter::Vec(data) => data.len(),
            SliceConverter::Slice(data) => data.len(),
        }
    }

    /// The data as a slice.
    pub fn as_ref(&self) -> (data: &[T])
        ensures
            data@ == self@,
    {
        match self {
            SliceConverter::Vec(data) => data.as_slice(),
            SliceConverter::Slice(data) => data,
        }
    }
}

/// A buffer that owns its data.
pub enum Buffer<T: CDatatype> {
    Host(Vec<T>),
}

impl<T: CDatatype> View for Buffer<T> {
    type V = Seq<T>;

    open spec fn view(&self) -> Seq<T> {
        match self {
            Buffer::Host(data) => data@,
        }
    }
}

/// A buffer handed on from one evaluation to the next: owned, or borrowed from
/// the array that holds it.
pub enum BufferConverter<'a, T: CDatatype> {
    Host(SliceConverter<'a, T>),
}

impl<'a, T: CDatatype> View for BufferConverter<'a, T> {
    type V = Seq<T>;

    open spec fn view(&self) -> Seq<T> {
        match self {
            BufferConverter::Host(data) => data@,
        }
    }
}

impl<'a, T: CDatatype> BufferConverter<'a, T> {
    /// The data as an owned buffer.
    pub fn into_buffer(self) -> (buffer: Result<Buffer<T>, Error>)
        ensures
            buffer matches Ok(b) && b@ == self@,
    {
        match self {
            BufferConverter::Host(data) => Ok(Buffer::Host(data.into_vec())),
        }
    }

    /// The number of elements.
    pub fn size(&self) -> (n: usize)
        ensures
            n == self@.len(),
    {
        match self {
            BufferConverter::Host(data) => data.size(),
        }
    }

    /// The data on the host.
    pub fn to_slice(self) -> (data: Result<SliceConverter<'a, T>, Error>)
        ensures
            data matches Ok(d) && d@ == self@,
    {
        match self {
            BufferConverter::Host(data) => Ok(data),
        }
    }

    /// A converter that owns `data`.
    pub fn from_vec(data: Vec<T>) -> (buffer: Self)
        ensures
            buffer@ == data@,
    {
        BufferConverter::Host(SliceConverter::Vec(data))
    }

    /// A converter that borrows `data`.
    pub fn from_slice(data: &'a [T]) -> (buffer: Self)
        ensures
            buffer@ == data@,
    {
        BufferConverter::Host(SliceConverter::Slice(data))
    }

    /// A converter that owns the data of `buffer`.
    pub fn from_buffer(buffer: Buffer<T>) -> (converter: Self)
        ensures
            converter@ == buffer@,
    {
        match buffer {
            Buffer::Host(data) => BufferConverter::Host(SliceConverter::Vec(data)),
        }
    }

    /// A converter that borrows the data of `buffer`.
    pub fn from_buffer_ref(buffer: &'a Buffer<T>) -> (converter: Self)
        ensures
            converter@ == buffer@,
    {
        match buffer {
            Buffer::Host(data) => BufferConverter::Host(SliceConverter::Slice(data.as_slice())),
        }
    }
}

impl<T: CDatatype> Buffer<T> {
    /// The number of elements.
    pub fn len(&self) -> (n: usize)
        ensures
            n == self@.len(),
    {
        match self {
            Buffer::Host(data) => data.len(),
        }
    }

    /// A buffer that owns `data`.
    pub fn from_vec(data: Vec<T>) -> (buffer: Self)
        ensures
            buffer@ == data@,
    {
        Buffer::Host(data)
    }

    /// Overwrites the buffer with the elements of `other`, which must be as
    /// many as the buffer holds; else nothing is written and a bounds error returned.
    pub fn write<'a>(&mut self, other: BufferConverter<'a, T>) -> (written: Result<(), Error>)
        ensures
            written is Ok == (other@.len() == old(self)@.len()),
            written is Ok ==> final(self)@ == other@,
            written matches Err(e) ==> e is Bounds && final(self)@ == old(self)@ && e.cause()
                == message_index(
                "cannot write a buffer of size "@,
                other@.len() as usize,
                old(self)@.len() as usize,
            ),
    {
        if other.size() != self.len() {
            return Err(bounds_index("cannot write a buffer of size ", other.size(), self.len()));
        }
        match other {
            BufferConverter::Host(that) => {
                *self = Buffer::Host(that.into_vec());
            },
        }
        Ok(())
    }
}

/// What holds the elements of an array.
pub trait BufferInstance {
    /// The number of elements, as a mathematical value.
    spec fn spec_size(&self) -> nat;

    /// The number of elements.
    fn size(&self) -> (n: usize)
        ensures
            n == self.spec_size(),
    ;
}

impl<T: CDatatype> BufferInstance for Vec<T> {
    open spec fn spec_size(&self) -> nat {
        self@.len()
    }

    fn size(&self) -> (n: usize) {
        self.len()
    }
}

impl<T: CDatatype> BufferInstance for Buffer<T> {
    open spec fn spec_size(&self) -> nat {
        self@.len()
    }

    fn size(&self) -> (n: usize) {
        self.len()
    }
}


impl<T: CDatatype> From<Vec<T>> for Buffer<T> {
    fn from(data: Vec<T>) -> (buffer: Self) {
        Buffer::Host(data)
    }
}

impl<T: CDatatype> FromSpecImpl<Vec<T>> for Buffer<T> {
    open spec fn obeys_from_spec() -> bool {
        true
    }

    open spec fn from_spec(data: Vec<T>) -> Self {
        Buffer::Host(data)
    }
}

impl<'a, T: CDatatype> From<Vec<T>> for BufferConverter<'a, T> {
    fn from(data: Vec<T>) -> (buffer: Self) {
        BufferConverter::Host(SliceConverter::Vec(data))
    }
}

impl<'a, T: CDatatype> FromSpecImpl<Vec<T>> for BufferConverter<'a, T> {
    open spec fn obeys_from_spec() -> bool {
        true
    }

    open spec fn from_spec(data: Vec<T>) -> Self {
        BufferConverter::Host(SliceConverter::Vec(data))
    }
}

impl<'a, T: CDatatype> From<&'a [T]> for BufferConverter<'a, T> {
    fn from(data: &'a [T]) -> (buffer: Self) {
        BufferConverter::Host(SliceConverter::Slice(data))
    }
}

impl<'a, T: CDatatype> FromSpecImpl<&'a [T]> for BufferConverter<'a, T> {
    open spec fn obeys_from_spec() -> bool {
        true
    }

    open spec fn from_spec(data: &'a [T]) -> Self {
        BufferConverter::Host(SliceConverter::Slice(data))
    }
}

impl<'a, T: CDatatype> From<Buffer<T>> for BufferConverter<'a, T> {
    fn from(buffer: Buffer<T>) -> (converter: Self) {
        match buffer {
            Buffer::Host(data) => BufferConverter::Host(SliceConverter::Vec(data)),
        }
    }
}

impl<'a, T: CDatatype> FromSpecImpl<Buffer<T>> for BufferConverter<'a, T> {
    open spec fn obeys_from_spec() -> bool {
        true
    }

    open spec fn from_spec(buffer: Buffer<T>) -> Self {
        match buffer {
            Buffer::Host(data) => BufferConverter::Host(SliceConverter::Vec(data)),
        }
    }
}

} // verus!

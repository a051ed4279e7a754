//! The report of one match.
use vstd::prelude::*;
use crate::common::DataType;

verus! {

/// The bytes around a match, and where they lie in the source.
#[derive(Debug, PartialEq)]
pub struct DataContext {
    data: Vec<u8>,
    offset: usize,
    /// zero index of value in data
    value_index: usize,
    /// size of value
    value_size: usize,
}

impl DataContext {
    #[verifier::type_invariant]
    spec fn wf(&self) -> bool {
        self.value_index + self.value_size <= self.data.len()
    }

    /// The bytes held.
    pub closed spec fn data_spec(&self) -> Seq<u8> {
        self.data@
    }

    /// The offset, in the source, of the first byte held.
    pub closed spec fn offset_spec(&self) -> usize {
        self.offset
    }

    /// The bytes of the value, among the bytes held.
    pub closed spec fn value_bytes(&self) -> Seq<u8> {
        self.data@.subrange(self.value_index as int, self.value_index + self.value_size)
    }

    /// The context of a value that is all of `data`, found at `offset`.
    pub fn new(data: Vec<u8>, offset: usize) -> (r: Self)
        ensures
            r.data_spec() == data@,
            r.offset_spec() == offset,
            r.value_bytes() == data@,
    {
        let size: usize = data.len();
        proof {
            assert(data@.subrange(0, size as int) =~= data@);
        }
        DataContext { data, offset, value_index: 0, value_size: size }
    }

    /// The bytes of the value.
    pub fn value_as_slice(&self) -> (r: &[u8])
        ensures
            r@ == self.value_bytes(),
    {
        proof {
            use_type_invariant(self);
        }
        vstd::slice::slice_subrange(
            self.data.as_slice(),
            self.value_index,
            self.value_index + self.value_size,
        )
    }

    /// The offset, in the source, of the first byte held.
    pub fn offset(&self) -> (r: usize)
        ensures
            r == self.offset_spec(),
    {
        self.offset
    }
}

/// One match: where it was found, what was found, and the bytes it was read
/// from.
#[derive(Debug, PartialEq)]
pub struct Output<T> {
    file_path: String,
    value_type: DataType,
    value: T,
    data_context: DataContext,
}

/// What an [`Output`] says.
pub struct OutputView<T> {
    /// The name of the source.
    pub file_path: Seq<char>,
    /// The tag of the value's type.
    pub value_type: DataType,
    pub value: T,
    /// The bytes that the value was read from.
    pub data: Seq<u8>,
    /// The offset of those bytes in the source.
    pub offset: nat,
}

impl<T> View for Output<T> {
    type V = OutputView<T>;

    closed spec fn view(&self) -> OutputView<T> {
        OutputView {
            file_path: self.file_path@,
            value_type: self.value_type,
            value: self.value,
            data: self.data_context.value_bytes(),
            offset: self.data_context.offset_spec() as nat,
        }
    }
}

impl<T> Output<T> {
    pub fn new(path: &str, value: T, value_type: DataType, data_context: DataContext) -> (r: Self)
        ensures
            r@ == (OutputView {
                file_path: path@,
                value_type,
                value,
                data: data_context.value_bytes(),
                offset: data_context.offset_spec() as nat,
            }),
    {
        Output { file_path: path.to_string(), value, value_type, data_context }
    }

    /// The name of the source.
    pub fn file_path(&self) -> (r: &str)
        ensures
            r@ == self@.file_path,
    {
        self.file_path.as_str()
    }

    /// The tag of the value's type.
    pub fn value_type(&self) -> (r: DataType)
        ensures
            r == self@.value_type,
    {
        self.value_type
    }

    pub fn value(&self) -> (r: &T)
        ensures
            *r == self@.value,
    {
        &self.value
    }

    /// The bytes that the value was read from, and where they lie.
    pub fn data_context(&self) -> (r: &DataContext)
        ensures
            r.value_bytes() == self@.data,
            r.offset_spec() == self@.offset,
    {
        &self.data_context
    }
}

} // verus!

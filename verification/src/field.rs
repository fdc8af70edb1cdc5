//! A value together with the name of the field it belongs to.

use crate::codec::{CodecError, Storable};
use crate::field_name::FieldName;
use vstd::prelude::*;

verus! {

/// One attribute of a record: its name in the registry and its value.
#[derive(Clone, Debug)]
pub struct Field<T> {
    pub field_name: FieldName,
    pub value: T,
}

impl<T: Storable> Field<T> {
    /// The bytes under which the value of the field is stored. The same
    /// value gives the same bytes every time.
    pub fn encode(&self) -> (r: Result<Vec<u8>, CodecError>)
        ensures
            match T::stored(self.value@) {
                Ok(bytes) => r matches Ok(b) && b@ == bytes,
                Err(e) => r matches Err(f) && f == e,
            },
    {
        self.value.to_bytes()
    }

    /// The value that `data` holds. Bytes that follow it are not looked at.
    pub fn decode(data: &[u8]) -> (r: Result<T, CodecError>)
        ensures
            match T::loaded(data@) {
                Ok(value) => r matches Ok(v) && v@ == value,
                Err(e) => r matches Err(f) && f == e,
            },
    {
        T::from_bytes(data)
    }
}

} // verus!

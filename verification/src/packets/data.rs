//! A fragment of data: a fixed number of bytes whose last two bytes tell how
//! many of the leading bytes are payload.
use vstd::prelude::*;
use crate::common::{
    spec_u16_from_be, u8_to_u16, FRAGMENT_SIZE, LENGTH_OF_DATA_ENDING_POSITION,
    LENGTH_OF_DATA_STARTING_POSITION,
};
use crate::packets::error::PacketError;

verus! {

/// One fragment of data.
#[derive(Clone, Copy, Debug, Eq, Hash)]
pub struct Data(pub [u8; 1024]);

impl PartialEq for Data {
    fn eq(&self, other: &Self) -> (r: bool) {
        let mut i: usize = 0;
        while i < 1024
            invariant
                i <= 1024,
                forall|j: int| 0 <= j < i ==> self.0[j] == other.0[j],
            decreases 1024 - i,
        {
            if self.0[i] != other.0[i] {
                return false;
            }
            i = i + 1;
        }
        assert(self.0 =~= other.0);
        true
    }
}

impl vstd::std_specs::cmp::PartialEqSpecImpl for Data {
    open spec fn obeys_eq_spec() -> bool {
        true
    }

    open spec fn eq_spec(&self, other: &Self) -> bool {
        *self == *other
    }
}

/// The payload length that a fragment announces in its last two bytes.
pub open spec fn spec_data_length(d: Data) -> u16 {
    spec_u16_from_be(d.0[1022], d.0[1023])
}

impl Data {
    /// The fragment made of `data_in`; an error unless it is exactly one
    /// fragment long.
    pub fn new(data_in: &[u8]) -> (r: Result<Self, PacketError>)
        ensures
            data_in@.len() == FRAGMENT_SIZE ==> (r matches Ok(d) && d.0@ == data_in@),
            data_in@.len() != FRAGMENT_SIZE ==> r == Err::<Data, PacketError>(
                PacketError::WrongFragmentLength,
            ),
    {
        if data_in.len() != FRAGMENT_SIZE {
            return Err(PacketError::WrongFragmentLength);
        }
        let mut data = [0u8; 1024];
        let mut i: usize = 0;
        while i < 1024
            invariant
                i <= 1024,
                data_in@.len() == 1024,
                forall|j: int| 0 <= j < i ==> data@[j] == data_in@[j],
            decreases 1024 - i,
        {
            data[i] = data_in[i];
            i = i + 1;
        }
        assert(data@ =~= data_in@);
        Ok(Data(data))
    }

    /// All the bytes of the fragment.
    pub fn as_bytes(&self) -> (r: &[u8])
        ensures
            r@ == self.0@,
    {
        self.0.as_slice()
    }

    /// The payload: the leading bytes, as many as the fragment announces.
    pub fn data(&self) -> (r: Result<Vec<u8>, PacketError>)
        requires
            spec_data_length(*self) <= FRAGMENT_SIZE,
        ensures
            r matches Ok(v) && v@ == self.0@.subrange(0, spec_data_length(*self) as int),
    {
        let length = u8_to_u16(
            [self.0[LENGTH_OF_DATA_STARTING_POSITION], self.0[LENGTH_OF_DATA_ENDING_POSITION]],
        );
        let mut out: Vec<u8> = Vec::new();
        let mut i: usize = 0;
        while i < length as usize
            invariant
                i <= length,
                length <= 1024,
                out@ == self.0@.subrange(0, i as int),
            decreases length - i,
        {
            out.push(self.0[i]);
            i = i + 1;
            assert(out@ =~= self.0@.subrange(0, i as int));
        }
        Ok(out)
    }
}

} // verus!

use vstd::prelude::*;
use crate::error::{Error, IoError};
use crate::index::{Indices, parse_indices};
use crate::text::{ElementModel, Text, decode_text};

verus! {

/// Size of a page of the container, in bytes.
pub const PAGE_SIZE: u64 = 2048;

/// Byte position of `offset` within page `page`, pages numbered from 1.
pub open spec fn text_position(page: u32, offset: u16) -> int {
    (page - 1) * 2048 + offset
}

/// An opened subbook: the container's bytes and its parsed index table.
pub struct Subbook {
    data: Vec<u8>,
    indices: Indices,
}

impl Subbook {
    /// The bytes of the container.
    pub closed spec fn bytes(&self) -> Seq<u8> {
        self.data@
    }

    /// The parsed index table.
    pub closed spec fn index_table(&self) -> Indices {
        self.indices
    }

    /// Opens the container `io`, parsing its index table once.
    pub fn from_io(io: Vec<u8>) -> (r: Result<Subbook, Error>)
        ensures
            match r {
                Ok(sb) => sb.bytes() == io@ && parse_indices(io@) == Ok::<Indices, Error>(
                    sb.index_table(),
                ),
                Err(e) => parse_indices(io@) == Err::<Indices, Error>(e),
            },
    {
        match Indices::read_from(&io) {
            Ok(indices) => Ok(Subbook { data: io, indices }),
            Err(e) => Err(e),
        }
    }

    /// The sections that the index table locates.
    pub fn indices(&self) -> (r: Indices)
        ensures
            r == self.index_table(),
    {
        self.indices
    }

    /// Decodes the text at byte `offset` of page `page`, that is from byte
    /// `(page - 1) * 2048 + offset` of the container on.
    pub fn read_text(&mut self, page: u32, offset: u16) -> (r: Result<Text, Error>)
        requires
            page >= 1,
        ensures
            *final(self) == *old(self),
            match r {
                Ok(t) => decode_text(old(self).bytes(), text_position(page, offset)) matches Ok(
                    (m, _),
                ) && m == t@,
                Err(e) => decode_text(old(self).bytes(), text_position(page, offset)) == Err::<
                    (Seq<ElementModel>, int),
                    Error,
                >(e),
            },
    {
        let at: u64 = (page as u64 - 1) * PAGE_SIZE + offset as u64;
        if at > self.data.len() as u64 {
            return Err(Error::Io(IoError::UnexpectedEof));
        }
        match crate::text::read_text(&self.data, at as usize) {
            Ok((t, _end)) => Ok(t),
            Err(e) => Err(e),
        }
    }
}

} // verus!

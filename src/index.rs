use vstd::prelude::*;
use crate::error::{Error, IoError, eof};

verus! {

/// Section id of the menu.
pub const MENU_ID: u8 = 0x01;

/// Section id of the copyright notice.
pub const COPYRIGHT_ID: u8 = 0x02;

/// Where a section lies: its first page (numbered from 1) and its length in pages.
#[derive(Debug, Clone, Copy, PartialEq, Eq, Structural)]
pub struct IndexLocation {
    pub page: u32,
    pub length: u32,
}

/// The sections that the index table locates.
#[derive(Debug, Clone, Copy, PartialEq, Eq, Structural)]
pub struct Indices {
    pub menu: Option<IndexLocation>,
    pub copyright: Option<IndexLocation>,
}

/// Big-endian 32-bit value of the four bytes at `at`.
pub open spec fn be_u32(data: Seq<u8>, at: int) -> u32 {
    ((data[at] as int) * 0x1000000 + (data[at + 1] as int) * 0x10000
        + (data[at + 2] as int) * 0x100 + (data[at + 3] as int)) as u32
}

/// The number of entries that the header announces.
pub open spec fn entry_count(data: Seq<u8>) -> nat {
    data[1] as nat
}

/// Offset of the record of entry `i`.
pub open spec fn entry_offset(i: int) -> int {
    16 + 16 * i
}

/// Section id of entry `i`.
pub open spec fn entry_id(data: Seq<u8>, i: int) -> u8 {
    data[entry_offset(i)]
}

/// Location held by entry `i`.
pub open spec fn entry_location(data: Seq<u8>, i: int) -> IndexLocation {
    IndexLocation {
        page: be_u32(data, entry_offset(i) + 2),
        length: be_u32(data, entry_offset(i) + 6),
    }
}

/// The container holds every byte that the parser reads: the header and,
/// for each announced entry, its record up to its availability flag.
pub open spec fn index_readable(data: Seq<u8>) -> bool {
    data.len() >= 5 && (entry_count(data) == 0 || data.len() >= entry_offset(
        entry_count(data) - 1,
    ) + 11)
}

/// The sections located by the first `k` entries, later entries overriding
/// earlier ones and unknown ids changing nothing.
pub open spec fn indices_upto(data: Seq<u8>, k: nat) -> Indices
    decreases k,
{
    if k == 0 {
        Indices { menu: None, copyright: None }
    } else {
        let prev = indices_upto(data, (k - 1) as nat);
        let id = entry_id(data, k - 1);
        if id == MENU_ID {
            Indices { menu: Some(entry_location(data, k - 1)), ..prev }
        } else if id == COPYRIGHT_ID {
            Indices { copyright: Some(entry_location(data, k - 1)), ..prev }
        } else {
            prev
        }
    }
}

/// What parsing the index table of `data` gives.
pub open spec fn parse_indices(data: Seq<u8>) -> Result<Indices, Error> {
    if index_readable(data) {
        Ok(indices_upto(data, entry_count(data)))
    } else {
        Err(eof())
    }
}

/// The byte at `at`, or the error of a read past the end.
fn byte_at(data: &Vec<u8>, at: usize) -> (r: Result<u8, Error>)
    ensures
        at < data@.len() ==> r == Ok::<u8, Error>(data@[at as int]),
        at >= data@.len() ==> r == Err::<u8, Error>(eof()),
{
    if at < data.len() {
        Ok(data[at])
    } else {
        Err(Error::Io(IoError::UnexpectedEof))
    }
}

/// Big-endian 32-bit value at `at`, which the caller has checked lies in `data`.
fn read_be_u32(data: &Vec<u8>, at: usize) -> (r: u32)
    requires
        at + 4 <= data@.len(),
    ensures
        r == be_u32(data@, at as int),
{
    let _len = data.len();
    let r: u32 = (data[at] as u32) * 0x1000000 + (data[at + 1] as u32) * 0x10000
        + (data[at + 2] as u32) * 0x100 + (data[at + 3] as u32);
    r
}

impl Indices {
    /// Reads the index table: the entry count at offset 1, the global
    /// availability flag at offset 4 (read, not kept), then one 16-byte record
    /// per entry from offset 16 on. Id 0x01 locates the menu, id 0x02 the
    /// copyright notice; other ids are passed over. A read past the end fails.
    pub fn read_from(data: &Vec<u8>) -> (r: Result<Indices, Error>)
        ensures
            r == parse_indices(data@),
    {
        let n_indices = match byte_at(data, 1) {
            Ok(b) => b,
            Err(e) => return Err(e),
        };
        let _global_avail = match byte_at(data, 4) {
            Ok(b) => b,
            Err(e) => return Err(e),
        };
        let mut ics = Indices { menu: None, copyright: None };
        let mut i: u8 = 0;
        while i < n_indices
            invariant
                data@.len() >= 5,
                n_indices == entry_count(data@),
                i <= n_indices,
                ics == indices_upto(data@, i as nat),
                i > 0 ==> data@.len() >= entry_offset(i - 1) + 11,
            decreases n_indices - i,
        {
            let at: usize = 16 + (i as usize) * 16;
            if at + 11 > data.len() {
                assert(!index_readable(data@));
                return Err(Error::Io(IoError::UnexpectedEof));
            }
            let index_id = data[at];
            let start_page = read_be_u32(data, at + 2);
            let page_count = read_be_u32(data, at + 6);
            let _avail = data[at + 10];
            let loc = IndexLocation { page: start_page, length: page_count };
            if index_id == MENU_ID {
                ics.menu = Some(loc);
            } else if index_id == COPYRIGHT_ID {
                ics.copyright = Some(loc);
            }
            i = i + 1;
        }
        Ok(ics)
    }
}

/// Parsing the index table is a function of the container's bytes: two
/// parses of the same bytes give the same result.
pub proof fn lemma_parse_deterministic(a: Seq<u8>, b: Seq<u8>)
    requires
        a == b,
    ensures
        parse_indices(a) == parse_indices(b),
{
}

/// An entry whose section id is neither the menu's nor the copyright's
/// changes neither location.
pub proof fn lemma_unknown_id_ignored(data: Seq<u8>, i: nat)
    requires
        entry_id(data, i as int) != MENU_ID,
        entry_id(data, i as int) != COPYRIGHT_ID,
    ensures
        indices_upto(data, i + 1).menu == indices_upto(data, i).menu,
        indices_upto(data, i + 1).copyright == indices_upto(data, i).copyright,
{
}

/// Of several entries with the same known id, the last one's location is
/// the one kept.
pub proof fn lemma_last_entry_wins(data: Seq<u8>, i: nat, n: nat)
    requires
        i < n,
        entry_id(data, i as int) == MENU_ID || entry_id(data, i as int) == COPYRIGHT_ID,
        forall|j: int| i < j < n ==> entry_id(data, j) != entry_id(data, i as int),
    ensures
        entry_id(data, i as int) == MENU_ID ==> indices_upto(data, n).menu == Some(
            entry_location(data, i as int),
        ),
        entry_id(data, i as int) == COPYRIGHT_ID ==> indices_upto(data, n).copyright == Some(
            entry_location(data, i as int),
        ),
    decreases n,
{
    if n > i + 1 {
        lemma_last_entry_wins(data, i, (n - 1) as nat);
        assert(entry_id(data, n - 1) != entry_id(data, i as int));
    }
}

} // verus!

//! Walking runs of atoms in a byte buffer: the signature check, the bounded
//! atom walker and the extraction of the movie atom's payload.

use crate::bytes::{get_be_u32, read_be_u32};
use crate::fourcc::{FTYP, MOOV};
use vstd::prelude::*;

verus! {

// Major brands accepted in the file-type atom.
pub const BRAND_QT: u32 = 0x71742020;  // 'qt  '
pub const BRAND_MP41: u32 = 0x6D703431;  // 'mp41'
pub const BRAND_MP42: u32 = 0x6D703432;  // 'mp42'
pub const BRAND_ISOM: u32 = 0x69736F6D;  // 'isom'
pub const BRAND_M4V: u32 = 0x4D345620;  // 'M4V '
pub const BRAND_M4A: u32 = 0x4D344120;  // 'M4A '

/// Header of one atom: its declared size (header included), its type, and
/// where its payload lies.
#[derive(Clone, Copy, Debug, PartialEq, Eq, Structural)]
pub struct Atom {
    pub size: u32,
    pub atom_type: u32,
    pub data_offset: u64,
    pub data_size: u32,
}

/// Why an atom header could not be read.
#[derive(Clone, Copy, Debug, PartialEq, Eq, Structural)]
pub enum AtomReadError {
    /// Fewer than eight bytes remain.
    EndOfData,
    /// The declared size is below the eight bytes of the header.
    InvalidSize,
}

/// Errors of the walker and of metadata extraction.
#[derive(Clone, Copy, Debug, PartialEq, Eq, Structural)]
pub enum MovError {
    /// The data is not a supported movie file, or the atom at `offset` is
    /// malformed or truncated.
    InvalidFormat { offset: u64 },
    /// No movie atom among the top-level atoms.
    NotFound,
    /// An atom of the model is too large for a 32-bit size field.
    AtomTooLarge,
}

/// The header stored at `pos`.
pub open spec fn header_at(d: Seq<u8>, pos: int) -> Atom {
    Atom {
        size: read_be_u32(d, pos),
        atom_type: read_be_u32(d, pos + 4),
        data_offset: (pos + 8) as u64,
        data_size: (read_be_u32(d, pos) - 8) as u32,
    }
}

pub open spec fn is_accepted_brand(b: u32) -> bool {
    b == BRAND_QT || b == BRAND_MP41 || b == BRAND_MP42 || b == BRAND_ISOM || b == BRAND_M4V
        || b == BRAND_M4A
}

/// The data starts with a well-formed file-type atom header followed by an
/// accepted major brand.
pub open spec fn has_mov_signature(d: Seq<u8>) -> bool {
    &&& d.len() >= 12
    &&& read_be_u32(d, 0) >= 8
    &&& read_be_u32(d, 4) == FTYP
    &&& is_accepted_brand(read_be_u32(d, 8))
}

/// The headers of the run of atoms that starts at `pos` and is bounded by
/// `end`, or the start of the first atom whose declared size is below eight.
/// The run ends where fewer than eight bytes remain before `end`, or after an
/// atom that reaches past `end`.
pub open spec fn atoms_from(d: Seq<u8>, pos: int, end: int) -> Result<Seq<Atom>, int>
    decreases end - pos,
{
    if pos < 0 || pos + 8 > end {
        Ok(Seq::empty())
    } else if read_be_u32(d, pos) < 8 {
        Err(pos)
    } else if pos + read_be_u32(d, pos) > end {
        Ok(seq![header_at(d, pos)])
    } else {
        match atoms_from(d, pos + read_be_u32(d, pos), end) {
            Ok(rest) => Ok(seq![header_at(d, pos)] + rest),
            Err(p) => Err(p),
        }
    }
}

/// Outcome of the search for the movie atom among top-level atoms.
pub enum MoovSearch {
    Found { start: int, size: int },
    Malformed { at: int },
    Absent,
}

/// Searches the top-level atoms from `pos` on for the movie atom.
pub open spec fn moov_search(d: Seq<u8>, pos: int) -> MoovSearch
    decreases d.len() - pos,
{
    if pos < 0 || pos + 8 > d.len() {
        MoovSearch::Absent
    } else if read_be_u32(d, pos) < 8 {
        MoovSearch::Malformed { at: pos }
    } else if read_be_u32(d, pos + 4) == MOOV {
        MoovSearch::Found { start: pos, size: read_be_u32(d, pos) as int }
    } else if pos + read_be_u32(d, pos) > d.len() {
        MoovSearch::Absent
    } else {
        moov_search(d, pos + read_be_u32(d, pos))
    }
}

/// What extraction returns for `d`: the movie atom's payload, or the error.
pub open spec fn extraction(d: Seq<u8>) -> Result<Seq<u8>, MovError> {
    if !has_mov_signature(d) {
        Err(MovError::InvalidFormat { offset: 0 })
    } else {
        match moov_search(d, 0) {
            MoovSearch::Found { start, size } => if start + size <= d.len() {
                Ok(d.subrange(start + 8, start + size))
            } else {
                Err(MovError::InvalidFormat { offset: start as u64 })
            },
            MoovSearch::Malformed { at } => Err(MovError::InvalidFormat { offset: at as u64 }),
            MoovSearch::Absent => Err(MovError::NotFound),
        }
    }
}

impl Atom {
    /// Reads the atom header at `pos`.
    pub fn read_from(data: &[u8], pos: usize) -> (r: Result<Atom, AtomReadError>)
        ensures
            pos + 8 > data@.len() ==> r == Err::<Atom, AtomReadError>(AtomReadError::EndOfData),
            pos + 8 <= data@.len() && read_be_u32(data@, pos as int) < 8 ==> r == Err::<
                Atom,
                AtomReadError,
            >(AtomReadError::InvalidSize),
            pos + 8 <= data@.len() && read_be_u32(data@, pos as int) >= 8 ==> r == Ok::<
                Atom,
                AtomReadError,
            >(header_at(data@, pos as int)),
    {
        if pos > data.len() || data.len() - pos < 8 {
            return Err(AtomReadError::EndOfData);
        }
        let size = get_be_u32(data, pos);
        let atom_type = get_be_u32(data, pos + 4);
        if size < 8 {
            return Err(AtomReadError::InvalidSize);
        }
        Ok(Atom { size, atom_type, data_offset: pos as u64 + 8, data_size: size - 8 })
    }
}

/// Walks the run of atoms from `start`, bounded by `end`, and returns their
/// headers in order.
pub fn walk_atoms(data: &[u8], start: usize, end: usize) -> (r: Result<Vec<Atom>, MovError>)
    requires
        start <= end <= data@.len(),
    ensures
        match r {
            Ok(v) => atoms_from(data@, start as int, end as int) == Ok::<Seq<Atom>, int>(v@),
            Err(e) => exists|p: int|
                atoms_from(data@, start as int, end as int) == Err::<Seq<Atom>, int>(p) && e
                    == MovError::InvalidFormat { offset: p as u64 },
        },
{
    let mut out: Vec<Atom> = Vec::new();
    let mut pos = start;
    while end - pos >= 8
        invariant
            start <= pos <= end <= data@.len(),
            atoms_from(data@, start as int, end as int) == match atoms_from(
                data@,
                pos as int,
                end as int,
            ) {
                Ok(rest) => Ok::<Seq<Atom>, int>(out@ + rest),
                Err(p) => Err(p),
            },
        decreases end - pos,
    {
        let atom = match Atom::read_from(data, pos) {
            Ok(a) => a,
            Err(_) => {
                return Err(MovError::InvalidFormat { offset: pos as u64 });
            },
        };
        let ghost before = out@;
        out.push(atom);
        if atom.size as usize > end - pos {
            assert(out@ =~= before + seq![header_at(data@, pos as int)]);
            return Ok(out);
        }
        proof {
            let next = pos + atom.size;
            match atoms_from(data@, next as int, end as int) {
                Ok(rest) => {
                    assert(before + (seq![header_at(data@, pos as int)] + rest) =~= out@ + rest);
                },
                Err(p) => {},
            }
        }
        pos = pos + atom.size as usize;
    }
    assert(out@ + Seq::<Atom>::empty() =~= out@);
    Ok(out)
}

/// Checks that the data starts with a file-type atom of an accepted brand.
pub fn check_file_signature(data: &[u8]) -> (r: bool)
    ensures
        r == has_mov_signature(data@),
{
    if data.len() < 12 {
        return false;
    }
    let size = get_be_u32(data, 0);
    let atom_type = get_be_u32(data, 4);
    if size < 8 || atom_type != FTYP {
        return false;
    }
    let brand = get_be_u32(data, 8);
    brand == BRAND_QT || brand == BRAND_MP41 || brand == BRAND_MP42 || brand == BRAND_ISOM
        || brand == BRAND_M4V || brand == BRAND_M4A
}

/// Returns the payload of the first top-level movie atom.
pub fn read_metadata(data: &Vec<u8>) -> (r: Result<Vec<u8>, MovError>)
    ensures
        match r {
            Ok(v) => extraction(data@) == Ok::<Seq<u8>, MovError>(v@),
            Err(e) => extraction(data@) == Err::<Seq<u8>, MovError>(e),
        },
{
    if !check_file_signature(data.as_slice()) {
        return Err(MovError::InvalidFormat { offset: 0 });
    }
    let buf_size = data.len();
    let mut pos: usize = 0;
    while pos < buf_size
        invariant
            buf_size == data@.len(),
            has_mov_signature(data@),
            moov_search(data@, 0) == moov_search(data@, pos as int),
        decreases buf_size - pos,
    {
        let atom = match Atom::read_from(data.as_slice(), pos) {
            Ok(a) => a,
            Err(AtomReadError::EndOfData) => {
                return Err(MovError::NotFound);
            },
            Err(AtomReadError::InvalidSize) => {
                return Err(MovError::InvalidFormat { offset: pos as u64 });
            },
        };
        if atom.atom_type == MOOV {
            if atom.size as usize > buf_size - pos {
                return Err(MovError::InvalidFormat { offset: pos as u64 });
            }
            let mut payload: Vec<u8> = Vec::new();
            let from = pos + 8;
            let to = pos + atom.size as usize;
            let mut i = from;
            while i < to
                invariant
                    from <= i <= to <= data@.len(),
                    payload@ == data@.subrange(from as int, i as int),
                decreases to - i,
            {
                payload.push(data[i]);
                assert(payload@ =~= data@.subrange(from as int, i + 1));
                i += 1;
            }
            return Ok(payload);
        }
        if atom.size as usize > buf_size - pos {
            return Err(MovError::NotFound);
        }
        pos = pos + atom.size as usize;
    }
    Err(MovError::NotFound)
}

/// A walk that succeeds reads every header inside its bound, each atom
/// starting where the one before it ends, and stops once the next atom
/// would start past the bound or fewer than eight bytes remain.
pub proof fn lemma_walk_within_bound(d: Seq<u8>, pos: int, end: int)
    requires
        0 <= pos <= end <= d.len() <= u64::MAX,
        atoms_from(d, pos, end) is Ok,
    ensures
        ({
            let hs = atoms_from(d, pos, end)->Ok_0;
            &&& forall|i: int|
                0 <= i < hs.len() ==> pos + 8 <= hs[i].data_offset <= end && hs[i].size >= 8
                    && hs[i].data_size + 8 == hs[i].size
            &&& forall|i: int|
                0 <= i < hs.len() - 1 ==> hs[i + 1].data_offset == hs[i].data_offset
                    + hs[i].data_size + 8 && hs[i].data_offset + hs[i].data_size <= end
            &&& hs.len() > 0 ==> hs[0].data_offset == pos + 8
            &&& hs.len() > 0 ==> hs.last().data_offset + hs.last().data_size > end - 8
        }),
    decreases end - pos,
{
    if pos + 8 > end {
    } else {
        let size = read_be_u32(d, pos);
        if pos + size > end {
        } else {
            lemma_walk_within_bound(d, pos + size, end);
            let hs = atoms_from(d, pos, end)->Ok_0;
            let rest = atoms_from(d, pos + size, end)->Ok_0;
            assert(hs =~= seq![header_at(d, pos)] + rest);
            assert forall|i: int| 0 <= i < hs.len() - 1 implies hs[i + 1].data_offset
                == hs[i].data_offset + hs[i].data_size + 8 && hs[i].data_offset
                + hs[i].data_size <= end by {
                if i > 0 {
                    assert(hs[i] == rest[i - 1]);
                    assert(hs[i + 1] == rest[i]);
                }
            }
        }
    }
}

/// Where a walk or the search for the movie atom fails, the reported
/// offset is the start of a header inside the bound whose declared size is
/// below eight.
pub proof fn lemma_malformed_offset(d: Seq<u8>, pos: int, end: int)
    requires
        0 <= pos,
        end <= d.len(),
    ensures
        atoms_from(d, pos, end) matches Err(p) ==> pos <= p && p + 8 <= end && read_be_u32(d, p)
            < 8,
        end == d.len() ==> (moov_search(d, pos) matches MoovSearch::Malformed { at } ==> pos <= at
            && at + 8 <= d.len() && read_be_u32(d, at) < 8),
    decreases end - pos,
{
    if pos + 8 <= end && read_be_u32(d, pos) >= 8 && pos + read_be_u32(d, pos) <= end {
        lemma_malformed_offset(d, pos + read_be_u32(d, pos), end);
    }
}

/// A file with a valid signature none of whose top-level atoms is a movie
/// atom yields `NotFound`.
pub proof fn lemma_no_moov_not_found(d: Seq<u8>)
    requires
        has_mov_signature(d),
        atoms_from(d, 0, d.len() as int) is Ok,
        forall|i: int|
            0 <= i < atoms_from(d, 0, d.len() as int)->Ok_0.len() ==> (#[trigger] atoms_from(
                d,
                0,
                d.len() as int,
            )->Ok_0[i]).atom_type != MOOV,
    ensures
        extraction(d) == Err::<Seq<u8>, MovError>(MovError::NotFound),
{
    lemma_search_absent(d, 0);
}

proof fn lemma_search_absent(d: Seq<u8>, pos: int)
    requires
        0 <= pos,
        atoms_from(d, pos, d.len() as int) is Ok,
        forall|i: int|
            0 <= i < atoms_from(d, pos, d.len() as int)->Ok_0.len() ==> (#[trigger] atoms_from(
                d,
                pos,
                d.len() as int,
            )->Ok_0[i]).atom_type != MOOV,
    ensures
        moov_search(d, pos) == MoovSearch::Absent,
    decreases d.len() - pos,
{
    let end = d.len() as int;
    if pos + 8 <= end {
        let hs = atoms_from(d, pos, end)->Ok_0;
        assert(hs[0] == header_at(d, pos));
        let size = read_be_u32(d, pos);
        if pos + size <= end {
            let rest = atoms_from(d, pos + size, end)->Ok_0;
            assert forall|i: int| 0 <= i < rest.len() implies (#[trigger] rest[i]).atom_type
                != MOOV by {
                assert(hs[i + 1] == rest[i]);
            }
            lemma_search_absent(d, pos + size);
        }
    }
}

} // verus!

//! The metadata model: atom containers, each holding the tags that belong to
//! it; the decoder that fills it from a movie atom's payload; and the
//! encoder that turns it back into an atom stream.

use crate::atom::{atoms_from, header_at, MovError};
use crate::bytes::{
    be_u16, be_u32, be_u64, get_be_u32, get_be_u64, i32s_bytes, lemma_i32s_bytes,
    lemma_read_be_u32_at, lemma_read_be_u64_at, push_all, push_i32s, push_u16, push_u32, push_u64,
    read_be_u32, read_be_u64, Endian,
};
use crate::fourcc::{DATA, FTYP, ILST, MDIA, META, MINF, MOOV, MVHD, STBL, TRAK, UDTA};
use crate::tag::{item_kind_matches, VideoTag};
use vstd::prelude::*;

verus! {

/// Access to an atom container's type and declared size.
pub trait VideoAtom {
    fn get_atom_type(&self) -> u32;

    fn get_size(&self) -> u64;
}

/// What an atom container holds.
pub struct ContainerView {
    pub atom_type: u32,
    pub size: u64,
    pub tags: Seq<VideoTag>,
}

/// The tags that belong to one atom type.
pub struct VideoAtomContainer {
    atom_type: u32,
    size: u64,
    tags: Vec<VideoTag>,
}

impl View for VideoAtomContainer {
    type V = ContainerView;

    closed spec fn view(&self) -> ContainerView {
        ContainerView { atom_type: self.atom_type, size: self.size, tags: self.tags@ }
    }
}

/// What a metadata model holds.
pub struct MetadataView {
    pub endian: Endian,
    pub atoms: Seq<ContainerView>,
}

/// An ordered collection of atom containers, at most one per atom type.
pub struct VideoMetadata {
    endian: Endian,
    atoms: Vec<VideoAtomContainer>,
}

impl View for VideoMetadata {
    type V = MetadataView;

    closed spec fn view(&self) -> MetadataView {
        MetadataView { endian: self.endian, atoms: views(self.atoms@) }
    }
}

/// No two containers share an atom type.
pub open spec fn unique_types(atoms: Seq<ContainerView>) -> bool {
    forall|i: int, j: int|
        0 <= i < atoms.len() && 0 <= j < atoms.len() && i != j ==> atoms[i].atom_type
            != atoms[j].atom_type
}

pub open spec fn has_type(atoms: Seq<ContainerView>, t: u32) -> bool {
    exists|i: int| 0 <= i < atoms.len() && atoms[i].atom_type == t
}

/// The position of the container of type `t`.
pub open spec fn index_of(atoms: Seq<ContainerView>, t: u32) -> int {
    choose|i: int| 0 <= i < atoms.len() && atoms[i].atom_type == t
}

/// Tags of another identity than `tag`.
pub open spec fn differs_from(tag: VideoTag) -> spec_fn(VideoTag) -> bool {
    |x: VideoTag| !x.same_identity(tag)
}

pub open spec fn essential_tag() -> spec_fn(VideoTag) -> bool {
    |x: VideoTag| x.spec_is_essential()
}

pub open spec fn essential_container() -> spec_fn(ContainerView) -> bool {
    |c: ContainerView| is_essential_atom_type(c.atom_type)
}

pub open spec fn essential_part(c: ContainerView) -> ContainerView {
    ContainerView { tags: c.tags.filter(essential_tag()), ..c }
}

pub open spec fn has_priority(p: u32) -> spec_fn(ContainerView) -> bool {
    |c: ContainerView| priority(c.atom_type) == p
}

pub open spec fn lacks_priority(p: u32) -> spec_fn(ContainerView) -> bool {
    |c: ContainerView| priority(c.atom_type) != p
}

/// The containers after `tag` was set in the container of type `t`: it
/// replaces every tag of the same identity there, and the container is
/// appended when there is none.
pub open spec fn with_tag_in(atoms: Seq<ContainerView>, t: u32, tag: VideoTag) -> Seq<
    ContainerView,
> {
    if has_type(atoms, t) {
        let i = index_of(atoms, t);
        atoms.update(
            i,
            ContainerView { tags: atoms[i].tags.filter(differs_from(tag)).push(tag), ..atoms[i] },
        )
    } else {
        atoms.push(ContainerView { atom_type: t, size: 0, tags: seq![tag] })
    }
}

/// The containers after `tag` was set in the container of its atom type.
pub open spec fn with_tag(atoms: Seq<ContainerView>, tag: VideoTag) -> Seq<ContainerView> {
    with_tag_in(atoms, tag.spec_atom_type(), tag)
}

/// File type, movie, movie header and track atoms are essential.
pub open spec fn is_essential_atom_type(t: u32) -> bool {
    t == FTYP || t == MOOV || t == MVHD || t == TRAK
}

/// The essential containers, each with only its essential tags.
pub open spec fn minimized(atoms: Seq<ContainerView>) -> Seq<ContainerView> {
    atoms.filter(essential_container()).map_values(|c: ContainerView| essential_part(c))
}

/// Rank of an atom type in the order of containers.
pub open spec fn priority(t: u32) -> u32 {
    if t == FTYP {
        0
    } else if t == MOOV {
        1
    } else if t == MVHD {
        2
    } else if t == TRAK {
        3
    } else if t == META {
        4
    } else {
        999
    }
}

pub open spec fn of_priority(atoms: Seq<ContainerView>, p: u32) -> Seq<ContainerView> {
    atoms.filter(has_priority(p))
}

/// The containers ordered by priority, those of equal priority in their
/// former order.
pub open spec fn priority_sorted(atoms: Seq<ContainerView>) -> Seq<ContainerView> {
    of_priority(atoms, 0) + of_priority(atoms, 1) + of_priority(atoms, 2) + of_priority(atoms, 3)
        + of_priority(atoms, 4) + of_priority(atoms, 999)
}

/// All tags, container by container, each container's in its order.
pub open spec fn all_tags(atoms: Seq<ContainerView>) -> Seq<VideoTag>
    decreases atoms.len(),
{
    if atoms.len() == 0 {
        Seq::empty()
    } else {
        all_tags(atoms.drop_last()) + atoms.last().tags
    }
}

/// The tags that the references point to.
pub open spec fn referenced(s: Seq<&VideoTag>) -> Seq<VideoTag> {
    s.map_values(|t: &VideoTag| *t)
}

pub open spec fn priority_above(p: u32) -> spec_fn(ContainerView) -> bool {
    |c: ContainerView| priority(c.atom_type) > p
}

pub open spec fn views(v: Seq<VideoAtomContainer>) -> Seq<ContainerView> {
    v.map_values(|c: VideoAtomContainer| c@)
}

broadcast proof fn lemma_views_update(v: Seq<VideoAtomContainer>, i: int, x: VideoAtomContainer)
    requires
        0 <= i < v.len(),
    ensures
        #[trigger] views(v.update(i, x)) == views(v).update(i, x@),
{
    assert(views(v.update(i, x)) =~= views(v).update(i, x@));
}

proof fn lemma_filter_unique(s: Seq<ContainerView>, p: spec_fn(ContainerView) -> bool)
    requires
        unique_types(s),
    ensures
        unique_types(s.filter(p)),
        forall|i: int|
            0 <= i < s.filter(p).len() ==> #[trigger] has_type(s, s.filter(p)[i].atom_type),
    decreases s.len(),
{
    broadcast use Seq::lemma_filter_push;

    if s.len() > 0 {
        let init = s.drop_last();
        assert(unique_types(init));
        lemma_filter_unique(init, p);
        assert(s =~= init.push(s.last()));
        assert forall|i: int| 0 <= i < init.filter(p).len() implies #[trigger] init.filter(
            p,
        )[i].atom_type != s.last().atom_type by {
            let t = init.filter(p)[i].atom_type;
            assert(has_type(init, t));
            let k = choose|k: int| 0 <= k < init.len() && init[k].atom_type == t;
            assert(s[k].atom_type == t);
        }
        assert forall|i: int| 0 <= i < s.filter(p).len() implies #[trigger] has_type(
            s,
            s.filter(p)[i].atom_type,
        ) by {
            if i < init.filter(p).len() {
                let t = init.filter(p)[i].atom_type;
                assert(s.filter(p)[i] == init.filter(p)[i]);
                assert(has_type(init, t));
                let k = choose|k: int| 0 <= k < init.len() && init[k].atom_type == t;
                assert(s[k].atom_type == t);
            } else {
                assert(s[s.len() - 1].atom_type == s.filter(p)[i].atom_type);
            }
        }
    }
}

proof fn lemma_filter_ext<A>(s: Seq<A>, f: spec_fn(A) -> bool, g: spec_fn(A) -> bool)
    requires
        forall|x: A| #[trigger] f(x) == g(x),
    ensures
        s.filter(f) == s.filter(g),
{
    assert(f =~= g);
}

proof fn lemma_filter_filter<A>(
    s: Seq<A>,
    f: spec_fn(A) -> bool,
    g: spec_fn(A) -> bool,
    h: spec_fn(A) -> bool,
)
    requires
        forall|x: A| #[trigger] h(x) == (f(x) && g(x)),
    ensures
        s.filter(f).filter(g) == s.filter(h),
    decreases s.len(),
{
    broadcast use Seq::lemma_filter_push;

    if s.len() > 0 {
        lemma_filter_filter(s.drop_last(), f, g, h);
        assert(s =~= s.drop_last().push(s.last()));
    }
}

proof fn lemma_concat_unique(a: Seq<ContainerView>, b: Seq<ContainerView>)
    requires
        unique_types(a),
        unique_types(b),
        forall|i: int, j: int|
            0 <= i < a.len() && 0 <= j < b.len() ==> a[i].atom_type != b[j].atom_type,
    ensures
        unique_types(a + b),
{
    assert forall|i: int, j: int|
        0 <= i < (a + b).len() && 0 <= j < (a + b).len() && i != j implies (a + b)[i].atom_type
        != (a + b)[j].atom_type by {
        if i < a.len() && j >= a.len() {
            assert((a + b)[j] == b[j - a.len()]);
        } else if i >= a.len() && j < a.len() {
            assert((a + b)[i] == b[i - a.len()]);
        } else if i >= a.len() && j >= a.len() {
            assert((a + b)[i] == b[i - a.len()]);
            assert((a + b)[j] == b[j - a.len()]);
        }
    }
}

/// The containers of priority `p` in a sequence of unique types have unique
/// types and no type of another priority.
proof fn lemma_bucket(s: Seq<ContainerView>, p: u32)
    requires
        unique_types(s),
    ensures
        unique_types(of_priority(s, p)),
        forall|i: int|
            0 <= i < of_priority(s, p).len() ==> priority(
                #[trigger] of_priority(s, p)[i].atom_type,
            ) == p,
{
    broadcast use vstd::seq_lib::group_filter_ensures;

    lemma_filter_unique(s, has_priority(p));
}

proof fn lemma_sorted_unique(s: Seq<ContainerView>)
    requires
        unique_types(s),
    ensures
        unique_types(priority_sorted(s)),
{
    lemma_bucket(s, 0);
    lemma_bucket(s, 1);
    lemma_bucket(s, 2);
    lemma_bucket(s, 3);
    lemma_bucket(s, 4);
    lemma_bucket(s, 999);
    let b0 = of_priority(s, 0);
    let b1 = of_priority(s, 1);
    let b2 = of_priority(s, 2);
    let b3 = of_priority(s, 3);
    let b4 = of_priority(s, 4);
    let b5 = of_priority(s, 999);
    lemma_concat_unique(b0, b1);
    let c1 = b0 + b1;
    assert forall|i: int| 0 <= i < c1.len() implies priority(#[trigger] c1[i].atom_type) <= 1 by {
        if i >= b0.len() {
            assert(c1[i] == b1[i - b0.len()]);
        }
    }
    lemma_concat_unique(c1, b2);
    let c2 = c1 + b2;
    assert forall|i: int| 0 <= i < c2.len() implies priority(#[trigger] c2[i].atom_type) <= 2 by {
        if i >= c1.len() {
            assert(c2[i] == b2[i - c1.len()]);
        }
    }
    lemma_concat_unique(c2, b3);
    let c3 = c2 + b3;
    assert forall|i: int| 0 <= i < c3.len() implies priority(#[trigger] c3[i].atom_type) <= 3 by {
        if i >= c2.len() {
            assert(c3[i] == b3[i - c2.len()]);
        }
    }
    lemma_concat_unique(c3, b4);
    let c4 = c3 + b4;
    assert forall|i: int| 0 <= i < c4.len() implies priority(#[trigger] c4[i].atom_type) <= 4 by {
        if i >= c3.len() {
            assert(c4[i] == b4[i - c3.len()]);
        }
    }
    lemma_concat_unique(c4, b5);
}

/// Keeps the tags of another identity than `tag`.
fn without_identity(tags: Vec<VideoTag>, tag: &VideoTag) -> (r: Vec<VideoTag>)
    ensures
        r@ == tags@.filter(differs_from(*tag)),
{
    let ghost p = differs_from(*tag);
    let mut rest = tags;
    let mut out: Vec<VideoTag> = Vec::new();
    while rest.len() > 0
        invariant
            out@ + rest@.filter(p) == tags@.filter(p),
            p == differs_from(*tag),
        decreases rest@.len(),
    {
        let ghost before = rest@;
        let x = rest.remove(0);
        proof {
            assert(before =~= seq![x] + rest@);
            rest@.lemma_filter_prepend(x, p);
        }
        if !x.has_same_identity(tag) {
            out.push(x);
            assert(out@ + rest@.filter(p) =~= tags@.filter(p));
        } else {
            assert(out@ + rest@.filter(p) =~= tags@.filter(p));
        }
    }
    assert(out@ =~= tags@.filter(p));
    out
}

/// Keeps the essential tags.
fn essential_tags(tags: Vec<VideoTag>) -> (r: Vec<VideoTag>)
    ensures
        r@ == tags@.filter(essential_tag()),
{
    let ghost p = essential_tag();
    let mut rest = tags;
    let mut out: Vec<VideoTag> = Vec::new();
    while rest.len() > 0
        invariant
            out@ + rest@.filter(p) == tags@.filter(p),
            p == essential_tag(),
        decreases rest@.len(),
    {
        let ghost before = rest@;
        let x = rest.remove(0);
        proof {
            assert(before =~= seq![x] + rest@);
            rest@.lemma_filter_prepend(x, p);
        }
        if x.is_essential_tag() {
            out.push(x);
            assert(out@ + rest@.filter(p) =~= tags@.filter(p));
        } else {
            assert(out@ + rest@.filter(p) =~= tags@.filter(p));
        }
    }
    assert(out@ =~= tags@.filter(p));
    out
}

/// Splits `atoms` into the containers of priority `p` and the others, each
/// in their order.
fn split_priority(atoms: Vec<VideoAtomContainer>, p: u32) -> (r: (
    Vec<VideoAtomContainer>,
    Vec<VideoAtomContainer>,
))
    ensures
        views(r.0@) == views(atoms@).filter(has_priority(p)),
        views(r.1@) == views(atoms@).filter(lacks_priority(p)),
{
    let ghost f = has_priority(p);
    let ghost g = lacks_priority(p);
    let mut rest = atoms;
    let mut sel: Vec<VideoAtomContainer> = Vec::new();
    let mut keep: Vec<VideoAtomContainer> = Vec::new();
    while rest.len() > 0
        invariant
            views(sel@) + views(rest@).filter(f) == views(atoms@).filter(f),
            views(keep@) + views(rest@).filter(g) == views(atoms@).filter(g),
            f == has_priority(p),
            g == lacks_priority(p),
        decreases rest@.len(),
    {
        let ghost before = rest@;
        let x = rest.remove(0);
        proof {
            assert(views(before) =~= seq![x@] + views(rest@));
            views(rest@).lemma_filter_prepend(x@, f);
            views(rest@).lemma_filter_prepend(x@, g);
        }
        if x.get_atom_priority() == p {
            let ghost old_sel = sel@;
            sel.push(x);
            assert(views(sel@) =~= views(old_sel).push(x@));
            assert(views(sel@) + views(rest@).filter(f) =~= views(atoms@).filter(f));
            assert(views(keep@) + views(rest@).filter(g) =~= views(atoms@).filter(g));
        } else {
            let ghost old_keep = keep@;
            keep.push(x);
            assert(views(keep@) =~= views(old_keep).push(x@));
            assert(views(sel@) + views(rest@).filter(f) =~= views(atoms@).filter(f));
            assert(views(keep@) + views(rest@).filter(g) =~= views(atoms@).filter(g));
        }
    }
    assert(views(sel@) =~= views(atoms@).filter(f));
    assert(views(keep@) =~= views(atoms@).filter(g));
    (sel, keep)
}

/// The fields of a movie header that the model carries.
pub struct MvhdFields {
    pub creation_time: u64,
    pub modification_time: u64,
    pub timescale: u32,
    pub duration: u64,
    pub matrix: Seq<i32>,
}

/// Fields of a movie header.
#[derive(Clone, Copy, Debug, PartialEq, Eq)]
pub struct MovieHeader {
    pub creation_time: u64,
    pub modification_time: u64,
    pub timescale: u32,
    pub duration: u64,
    pub matrix: [i32; 9],
}

impl View for MovieHeader {
    type V = MvhdFields;

    open spec fn view(&self) -> MvhdFields {
        MvhdFields {
            creation_time: self.creation_time,
            modification_time: self.modification_time,
            timescale: self.timescale,
            duration: self.duration,
            matrix: self.matrix@,
        }
    }
}

pub open spec fn identity_matrix() -> Seq<i32> {
    seq![0x00010000i32, 0, 0, 0, 0x00010000, 0, 0, 0, 0x40000000]
}

/// The movie header that the tags give: each field from the last tag that
/// sets it, where time stamps of zero and empty value lists set nothing.
pub open spec fn mvhd_fields(tags: Seq<VideoTag>) -> MvhdFields
    decreases tags.len(),
{
    if tags.len() == 0 {
        MvhdFields {
            creation_time: 0,
            modification_time: 0,
            timescale: 1000,
            duration: 0,
            matrix: identity_matrix(),
        }
    } else {
        let f = mvhd_fields(tags.drop_last());
        match tags.last() {
            VideoTag::CreationTime(t) => if t != 0 {
                MvhdFields { creation_time: t, ..f }
            } else {
                f
            },
            VideoTag::ModificationTime(t) => if t != 0 {
                MvhdFields { modification_time: t, ..f }
            } else {
                f
            },
            VideoTag::Timescale(v) => if v@.len() > 0 {
                MvhdFields { timescale: v@[0], ..f }
            } else {
                f
            },
            VideoTag::Duration(v) => if v@.len() > 0 {
                MvhdFields { duration: v@[0], ..f }
            } else {
                f
            },
            VideoTag::TransformMatrix(m) => MvhdFields { matrix: m@, ..f },
            _ => f,
        }
    }
}

pub open spec fn zeros(n: nat) -> Seq<u8> {
    Seq::new(n, |i: int| 0u8)
}

/// Body of a movie header atom: version and flags, times, timescale,
/// duration, rate 1.0, volume 1.0, reserved bytes, the matrix, predefined
/// bytes and the next track id 1, all big-endian.
#[verifier::opaque]
pub open spec fn mvhd_body(f: MvhdFields) -> Seq<u8> {
    zeros(4) + be_u64(f.creation_time) + be_u64(f.modification_time) + be_u32(f.timescale)
        + be_u64(f.duration) + be_u32(0x00010000) + be_u16(0x0100) + zeros(10) + i32s_bytes(
        f.matrix,
        Endian::Big,
    ) + zeros(24) + be_u32(1)
}

/// Reads the fields of a movie header body: laid out as `mvhd_body` lays
/// them out when it has at least 112 bytes, else with 32-bit times and
/// duration when it has at least 100.
pub open spec fn parse_mvhd(b: Seq<u8>) -> Option<MvhdFields> {
    if b.len() < 100 {
        None
    } else if b.len() < 112 {
        Some(
            MvhdFields {
                creation_time: read_be_u32(b, 4) as u64,
                modification_time: read_be_u32(b, 8) as u64,
                timescale: read_be_u32(b, 12),
                duration: read_be_u32(b, 16) as u64,
                matrix: Seq::new(9, |k: int| read_be_u32(b, 36 + 4 * k) as i32),
            },
        )
    } else {
        Some(
            MvhdFields {
                creation_time: read_be_u64(b, 4),
                modification_time: read_be_u64(b, 12),
                timescale: read_be_u32(b, 20),
                duration: read_be_u64(b, 24),
                matrix: Seq::new(9, |k: int| read_be_u32(b, 48 + 4 * k) as i32),
            },
        )
    }
}

/// The tags' values encoded one after another.
pub open spec fn tags_bytes(tags: Seq<VideoTag>, e: Endian) -> Seq<u8>
    decreases tags.len(),
{
    if tags.len() == 0 {
        Seq::empty()
    } else {
        tags_bytes(tags.drop_last(), e) + tags.last().spec_value_bytes(e)
    }
}

/// The body of the atom that a container becomes.
pub open spec fn atom_body(c: ContainerView, e: Endian) -> Seq<u8> {
    if c.atom_type == MVHD {
        mvhd_body(mvhd_fields(c.tags))
    } else if c.atom_type == META {
        zeros(4) + tags_bytes(c.tags, e)
    } else {
        tags_bytes(c.tags, e)
    }
}

pub open spec fn atom_bytes(c: ContainerView, e: Endian) -> Seq<u8> {
    be_u32((atom_body(c, e).len() + 8) as u32) + be_u32(c.atom_type) + atom_body(c, e)
}

pub open spec fn atoms_bytes(atoms: Seq<ContainerView>, e: Endian) -> Seq<u8>
    decreases atoms.len(),
{
    if atoms.len() == 0 {
        Seq::empty()
    } else {
        atoms_bytes(atoms.drop_last(), e) + atom_bytes(atoms.last(), e)
    }
}

/// The file-type atom written ahead of the containers: major brand 'mp41',
/// minor version 0, compatible brands 'mp41' and 'isom'.
pub open spec fn ftyp_atom() -> Seq<u8> {
    be_u32(24) + be_u32(FTYP) + seq![
        0x6Du8, 0x70, 0x34, 0x31, 0x00, 0x00, 0x00, 0x00, 0x6D, 0x70, 0x34, 0x31, 0x69, 0x73, 0x6F, 0x6D,
    ]
}

pub open spec fn all_fit(atoms: Seq<ContainerView>, e: Endian) -> bool {
    forall|i: int| 0 <= i < atoms.len() ==> atom_body(#[trigger] atoms[i], e).len() + 8 <= u32::MAX
}

/// What encoding the model gives.
pub open spec fn encoding(m: MetadataView) -> Result<Seq<u8>, MovError> {
    if all_fit(m.atoms, m.endian) {
        Ok(ftyp_atom() + atoms_bytes(m.atoms, m.endian))
    } else {
        Err(MovError::AtomTooLarge)
    }
}

/// Reads a movie header body, in the layout with 64-bit times that the
/// encoder writes or in the one with 32-bit times.
pub fn decode_mvhd(body: &[u8]) -> (r: Option<MovieHeader>)
    ensures
        r is None <==> parse_mvhd(body@) is None,
        r matches Some(h) ==> parse_mvhd(body@) == Some(h@),
{
    if body.len() < 100 {
        return None;
    }
    if body.len() < 112 {
        let matrix: [i32; 9] = [
            get_be_u32(body, 36) as i32,
            get_be_u32(body, 40) as i32,
            get_be_u32(body, 44) as i32,
            get_be_u32(body, 48) as i32,
            get_be_u32(body, 52) as i32,
            get_be_u32(body, 56) as i32,
            get_be_u32(body, 60) as i32,
            get_be_u32(body, 64) as i32,
            get_be_u32(body, 68) as i32,
        ];
        let h = MovieHeader {
            creation_time: get_be_u32(body, 4) as u64,
            modification_time: get_be_u32(body, 8) as u64,
            timescale: get_be_u32(body, 12),
            duration: get_be_u32(body, 16) as u64,
            matrix,
        };
        assert(h@.matrix =~= parse_mvhd(body@)->Some_0.matrix);
        return Some(h);
    }
    let matrix: [i32; 9] = [
        get_be_u32(body, 48) as i32,
        get_be_u32(body, 52) as i32,
        get_be_u32(body, 56) as i32,
        get_be_u32(body, 60) as i32,
        get_be_u32(body, 64) as i32,
        get_be_u32(body, 68) as i32,
        get_be_u32(body, 72) as i32,
        get_be_u32(body, 76) as i32,
        get_be_u32(body, 80) as i32,
    ];
    let h = MovieHeader {
        creation_time: get_be_u64(body, 4),
        modification_time: get_be_u64(body, 12),
        timescale: get_be_u32(body, 20),
        duration: get_be_u64(body, 24),
        matrix,
    };
    assert(h@.matrix =~= parse_mvhd(body@)->Some_0.matrix);
    Some(h)
}

proof fn lemma_mvhd_body_layout(f: MvhdFields)
    requires
        f.matrix.len() == 9,
    ensures
        mvhd_body(f).len() == 112,
        parse_mvhd(mvhd_body(f)) == Some(f),
{
    reveal(mvhd_body);
    let b = mvhd_body(f);
    let mb = i32s_bytes(f.matrix, Endian::Big);
    lemma_i32s_bytes(f.matrix);
    assert(b.len() == 112);
    assert(b.subrange(4, 12) =~= be_u64(f.creation_time));
    assert(b.subrange(12, 20) =~= be_u64(f.modification_time));
    assert(b.subrange(20, 24) =~= be_u32(f.timescale));
    assert(b.subrange(24, 32) =~= be_u64(f.duration));
    lemma_read_be_u64_at(b, 4, f.creation_time);
    lemma_read_be_u64_at(b, 12, f.modification_time);
    lemma_read_be_u32_at(b, 20, f.timescale);
    lemma_read_be_u64_at(b, 24, f.duration);
    let m = parse_mvhd(b)->Some_0.matrix;
    assert forall|k: int| 0 <= k < 9 implies #[trigger] m[k] == f.matrix[k] by {
        assert(b.subrange(48 + 4 * k, 52 + 4 * k) =~= mb.subrange(4 * k, 4 * k + 4));
        assert(mb.subrange(4 * k, 4 * k + 4) == be_u32(f.matrix[k] as u32));
        lemma_read_be_u32_at(b, 48 + 4 * k, f.matrix[k] as u32);
        let x = f.matrix[k];
        assert(((x as u32) as i32) == x) by (bit_vector);
    }
    assert(m =~= f.matrix);
}

proof fn lemma_header_tags_fields(
    t1: u64,
    t2: u64,
    s: u32,
    d: u64,
    mx: [i32; 9],
    sv: Vec<u32>,
    dv: Vec<u64>,
)
    requires
        sv@ == seq![s],
        dv@ == seq![d],
    ensures
        mvhd_fields(
            seq![
                VideoTag::CreationTime(t1),
                VideoTag::ModificationTime(t2),
                VideoTag::Timescale(sv),
                VideoTag::Duration(dv),
                VideoTag::TransformMatrix(mx),
            ],
        ) == (MvhdFields {
            creation_time: t1,
            modification_time: t2,
            timescale: s,
            duration: d,
            matrix: mx@,
        }),
{
    let prefix1 = seq![VideoTag::CreationTime(t1)];
    let prefix2 = prefix1.push(VideoTag::ModificationTime(t2));
    let prefix3 = prefix2.push(VideoTag::Timescale(sv));
    let prefix4 = prefix3.push(VideoTag::Duration(dv));
    let prefix5 = prefix4.push(VideoTag::TransformMatrix(mx));
    assert(prefix1.drop_last() =~= Seq::<VideoTag>::empty());
    assert(prefix2.drop_last() == prefix1);
    assert(prefix3.drop_last() == prefix2);
    assert(prefix4.drop_last() == prefix3);
    assert(prefix5.drop_last() == prefix4);
    let f0 = mvhd_fields(Seq::<VideoTag>::empty());
    let f1 = MvhdFields { creation_time: t1, ..f0 };
    assert(mvhd_fields(prefix1) == f1);
    let f2 = MvhdFields { modification_time: t2, ..f1 };
    assert(mvhd_fields(prefix2) == f2);
    let f3 = MvhdFields { timescale: s, ..f2 };
    assert(mvhd_fields(prefix3) == f3);
    let f4 = MvhdFields { duration: d, ..f3 };
    assert(mvhd_fields(prefix4) == f4);
    assert(mvhd_fields(prefix5) == MvhdFields { matrix: mx@, ..f4 });
    assert(prefix5 =~= seq![
        VideoTag::CreationTime(t1),
        VideoTag::ModificationTime(t2),
        VideoTag::Timescale(sv),
        VideoTag::Duration(dv),
        VideoTag::TransformMatrix(mx),
    ]);
}

proof fn lemma_walk_header_stream(bytes: Seq<u8>, body: Seq<u8>)
    requires
        body.len() == 112,
        bytes == ftyp_atom() + (be_u32(120) + be_u32(MVHD) + body),
    ensures
        atoms_from(bytes, 0, bytes.len() as int) == Ok::<Seq<crate::atom::Atom>, int>(
            seq![header_at(bytes, 0), header_at(bytes, 24)],
        ),
        header_at(bytes, 0).atom_type == FTYP,
        header_at(bytes, 24).atom_type == MVHD,
        header_at(bytes, 24).data_offset == 32,
        header_at(bytes, 24).data_size == 112,
        bytes.subrange(32, 144) == body,
{
    assert(bytes.len() == 144);
    assert(bytes.subrange(0, 4) =~= be_u32(24));
    assert(bytes.subrange(4, 8) =~= be_u32(FTYP));
    assert(bytes.subrange(24, 28) =~= be_u32(120));
    assert(bytes.subrange(28, 32) =~= be_u32(MVHD));
    assert(bytes.subrange(32, 144) =~= body);
    lemma_read_be_u32_at(bytes, 0, 24);
    lemma_read_be_u32_at(bytes, 4, FTYP);
    lemma_read_be_u32_at(bytes, 24, 120);
    lemma_read_be_u32_at(bytes, 28, MVHD);
    assert(atoms_from(bytes, 144, 144) == Ok::<Seq<crate::atom::Atom>, int>(Seq::empty()));
    assert(seq![header_at(bytes, 24)] + Seq::<crate::atom::Atom>::empty() =~= seq![
        header_at(bytes, 24),
    ]);
    assert(atoms_from(bytes, 24, 144) == Ok::<Seq<crate::atom::Atom>, int>(
        seq![header_at(bytes, 24)],
    ));
    assert(seq![header_at(bytes, 0)] + seq![header_at(bytes, 24)] =~= seq![
        header_at(bytes, 0),
        header_at(bytes, 24),
    ]);
}

/// Tags of the same identity as `tag`.
pub open spec fn same_as(tag: VideoTag) -> spec_fn(VideoTag) -> bool {
    |x: VideoTag| x.same_identity(tag)
}

proof fn lemma_with_tag_unique(atoms: Seq<ContainerView>, tag: VideoTag)
    requires
        unique_types(atoms),
    ensures
        unique_types(with_tag(atoms, tag)),
        has_type(with_tag(atoms, tag), tag.spec_atom_type()),
        has_type(atoms, tag.spec_atom_type()) ==> with_tag(atoms, tag).len() == atoms.len()
            && forall|j: int|
            0 <= j < atoms.len() ==> #[trigger] with_tag(atoms, tag)[j].atom_type
                == atoms[j].atom_type,
{
    let t = tag.spec_atom_type();
    let r = with_tag(atoms, tag);
    if has_type(atoms, t) {
        let i = index_of(atoms, t);
        assert(r[i].atom_type == t);
        assert forall|a: int, b: int|
            0 <= a < r.len() && 0 <= b < r.len() && a != b implies r[a].atom_type
            != r[b].atom_type by {
            assert(r[a].atom_type == atoms[a].atom_type);
            assert(r[b].atom_type == atoms[b].atom_type);
        }
    } else {
        assert(r[atoms.len() as int].atom_type == t);
        assert forall|a: int, b: int|
            0 <= a < r.len() && 0 <= b < r.len() && a != b implies r[a].atom_type
            != r[b].atom_type by {
            if a == atoms.len() {
                assert(atoms[b].atom_type != t);
            } else if b == atoms.len() {
                assert(atoms[a].atom_type != t);
            }
        }
    }
}

proof fn lemma_index_of_unique(atoms: Seq<ContainerView>, i: int)
    requires
        unique_types(atoms),
        0 <= i < atoms.len(),
    ensures
        has_type(atoms, atoms[i].atom_type),
        index_of(atoms, atoms[i].atom_type) == i,
{
    let t = atoms[i].atom_type;
    assert(has_type(atoms, t));
    let k = index_of(atoms, t);
    assert(0 <= k < atoms.len() && atoms[k].atom_type == t);
}

/// Setting two tags of one identity, one after the other, leaves exactly one
/// tag of that identity in the container of their atom type: the second.
pub proof fn lemma_set_tag_twice(atoms: Seq<ContainerView>, a: VideoTag, b: VideoTag)
    requires
        unique_types(atoms),
        a.same_identity(b),
    ensures
        ({
            let r = with_tag(with_tag(atoms, a), b);
            let t = b.spec_atom_type();
            &&& unique_types(r)
            &&& has_type(r, t)
            &&& r[index_of(r, t)].tags.filter(same_as(b)) == seq![b]
        }),
{
    broadcast use Seq::lemma_filter_push;
    broadcast use vstd::seq_lib::group_filter_ensures;

    let r1 = with_tag(atoms, a);
    lemma_with_tag_unique(atoms, a);
    lemma_with_tag_unique(r1, b);
    let r = with_tag(r1, b);
    let t = b.spec_atom_type();
    let i = index_of(r1, t);
    assert(has_type(r1, t));
    assert(r[i].atom_type == t);
    lemma_index_of_unique(r, i);
    let x = r1[i].tags.filter(differs_from(b));
    assert(r[i].tags == x.push(b));
    let none = |y: VideoTag| false;
    lemma_filter_filter(r1[i].tags, differs_from(b), same_as(b), none);
    assert(x.filter(same_as(b)).len() == 0) by {
        if x.filter(same_as(b)).len() > 0 {
            assert(none(r1[i].tags.filter(none)[0]));
        }
    }
    assert(x.push(b).filter(same_as(b)) =~= seq![b]);
}

/// Minimizing keeps every essential container with exactly its essential
/// tags and removes every other container.
pub proof fn lemma_minimize(atoms: Seq<ContainerView>)
    requires
        unique_types(atoms),
    ensures
        ({
            let r = minimized(atoms);
            &&& unique_types(r)
            &&& forall|j: int|
                0 <= j < r.len() ==> is_essential_atom_type(#[trigger] r[j].atom_type)
                    && forall|k: int|
                    0 <= k < r[j].tags.len() ==> (#[trigger] r[j].tags[k]).spec_is_essential()
            &&& forall|i: int|
                0 <= i < atoms.len() && is_essential_atom_type(#[trigger] atoms[i].atom_type)
                    ==> has_type(r, atoms[i].atom_type) && r[index_of(r, atoms[i].atom_type)]
                    == essential_part(atoms[i])
            &&& forall|i: int|
                0 <= i < atoms.len() && !is_essential_atom_type(#[trigger] atoms[i].atom_type)
                    ==> !has_type(r, atoms[i].atom_type)
        }),
{
    broadcast use vstd::seq_lib::group_filter_ensures;

    let p = essential_container();
    let f = atoms.filter(p);
    let r = minimized(atoms);
    lemma_filter_unique(atoms, p);
    assert forall|a: int, b: int|
        0 <= a < r.len() && 0 <= b < r.len() && a != b implies r[a].atom_type
        != r[b].atom_type by {
        assert(r[a].atom_type == f[a].atom_type);
        assert(r[b].atom_type == f[b].atom_type);
    }
    assert forall|j: int| 0 <= j < r.len() implies is_essential_atom_type(
        #[trigger] r[j].atom_type,
    ) && forall|k: int|
        0 <= k < r[j].tags.len() ==> (#[trigger] r[j].tags[k]).spec_is_essential() by {
        assert(p(f[j]));
        assert(r[j] == essential_part(f[j]));
        assert forall|k: int| 0 <= k < r[j].tags.len() implies (
        #[trigger] r[j].tags[k]).spec_is_essential() by {
            assert(essential_tag()(f[j].tags.filter(essential_tag())[k]));
        }
    }
    assert forall|i: int|
        0 <= i < atoms.len() && is_essential_atom_type(
            #[trigger] atoms[i].atom_type,
        ) implies has_type(r, atoms[i].atom_type) && r[index_of(r, atoms[i].atom_type)]
        == essential_part(atoms[i]) by {
        atoms.lemma_filter_contains(p, i);
        assert(f.contains(atoms[i]));
        let j = choose|j: int| 0 <= j < f.len() && f[j] == atoms[i];
        assert(r[j] == essential_part(atoms[i]));
        lemma_index_of_unique(r, j);
    }
    assert forall|i: int|
        0 <= i < atoms.len() && !is_essential_atom_type(
            #[trigger] atoms[i].atom_type,
        ) implies !has_type(r, atoms[i].atom_type) by {
        if has_type(r, atoms[i].atom_type) {
            let j = choose|j: int| 0 <= j < r.len() && r[j].atom_type == atoms[i].atom_type;
            assert(r[j] == essential_part(f[j]));
            assert(p(f[j]));
        }
    }
}

proof fn lemma_atoms_bytes_prepend(c: ContainerView, rest: Seq<ContainerView>, e: Endian)
    ensures
        atoms_bytes(seq![c] + rest, e) == atom_bytes(c, e) + atoms_bytes(rest, e),
    decreases rest.len(),
{
    if rest.len() == 0 {
        assert(seq![c] + rest =~= seq![c]);
        lemma_single_atom_bytes(seq![c], e);
        assert(atom_bytes(c, e) + atoms_bytes(rest, e) =~= atom_bytes(c, e));
    } else {
        lemma_atoms_bytes_prepend(c, rest.drop_last(), e);
        assert((seq![c] + rest).drop_last() =~= seq![c] + rest.drop_last());
        assert(atom_bytes(c, e) + atoms_bytes(rest.drop_last(), e) + atom_bytes(rest.last(), e)
            =~= atom_bytes(c, e) + atoms_bytes(rest, e));
    }
}

/// Walking `prefix + atoms_bytes(atoms)` from the end of `prefix` gives one
/// header per container, with its type and body length.
#[verifier::spinoff_prover]
#[verifier::rlimit(60)]
proof fn lemma_walk_encoded(prefix: Seq<u8>, atoms: Seq<ContainerView>, e: Endian)
    requires
        all_fit(atoms, e),
    ensures
        ({
            let bytes = prefix + atoms_bytes(atoms, e);
            &&& atoms_from(bytes, prefix.len() as int, bytes.len() as int) is Ok
            &&& atoms_from(bytes, prefix.len() as int, bytes.len() as int)->Ok_0.len()
                == atoms.len()
            &&& forall|k: int|
                0 <= k < atoms.len() ==> (#[trigger] atoms_from(
                    bytes,
                    prefix.len() as int,
                    bytes.len() as int,
                )->Ok_0[k]).atom_type == atoms[k].atom_type && atoms_from(
                    bytes,
                    prefix.len() as int,
                    bytes.len() as int,
                )->Ok_0[k].data_size == atom_body(atoms[k], e).len()
        }),
    decreases atoms.len(),
{
    let bytes = prefix + atoms_bytes(atoms, e);
    let pos = prefix.len() as int;
    if atoms.len() == 0 {
        assert(bytes.len() == pos);
    } else {
        let c = atoms[0];
        let rest = atoms.drop_first();
        assert(atoms =~= seq![c] + rest);
        lemma_atoms_bytes_prepend(c, rest, e);
        let body = atom_body(c, e);
        let size = (body.len() + 8) as u32;
        assert(atom_body(atoms[0], e).len() + 8 <= u32::MAX);
        let ab = atom_bytes(c, e);
        let prefix2 = prefix + ab;
        assert(bytes =~= prefix2 + atoms_bytes(rest, e));
        assert(bytes.subrange(pos, pos + 4) =~= be_u32(size));
        assert(bytes.subrange(pos + 4, pos + 8) =~= be_u32(c.atom_type));
        lemma_read_be_u32_at(bytes, pos, size);
        lemma_read_be_u32_at(bytes, pos + 4, c.atom_type);
        assert(all_fit(rest, e)) by {
            assert forall|i: int| 0 <= i < rest.len() implies atom_body(#[trigger] rest[i], e).len()
                + 8 <= u32::MAX by {
                assert(rest[i] == atoms[i + 1]);
            }
        }
        lemma_walk_encoded(prefix2, rest, e);
        let hs = atoms_from(bytes, pos, bytes.len() as int)->Ok_0;
        let tail = atoms_from(bytes, prefix2.len() as int, bytes.len() as int)->Ok_0;
        assert(hs == seq![header_at(bytes, pos)] + tail);
        assert forall|k: int| 0 <= k < atoms.len() implies (#[trigger] hs[k]).atom_type
            == atoms[k].atom_type && hs[k].data_size == atom_body(atoms[k], e).len() by {
            if k > 0 {
                assert(hs[k] == tail[k - 1]);
                assert(atoms[k] == rest[k - 1]);
            }
        }
    }
}

/// Whenever encoding succeeds, walking its bytes gives the file-type atom
/// and then exactly one atom per container, in the model's order, each with
/// the container's type and the length of its body.
pub proof fn lemma_encoding_parses(m: MetadataView)
    requires
        encoding(m) is Ok,
    ensures
        ({
            let bytes = encoding(m)->Ok_0;
            let hs = atoms_from(bytes, 0, bytes.len() as int)->Ok_0;
            &&& atoms_from(bytes, 0, bytes.len() as int) is Ok
            &&& hs.len() == m.atoms.len() + 1
            &&& hs[0].atom_type == FTYP
            &&& hs[0].data_size == 16
            &&& forall|k: int|
                0 <= k < m.atoms.len() ==> (#[trigger] hs[k + 1]).atom_type
                    == m.atoms[k].atom_type && hs[k + 1].data_size == atom_body(
                    m.atoms[k],
                    m.endian,
                ).len()
        }),
{
    let bytes = encoding(m)->Ok_0;
    let f = ftyp_atom();
    assert(bytes == f + atoms_bytes(m.atoms, m.endian));
    assert(bytes.subrange(0, 4) =~= be_u32(24));
    assert(bytes.subrange(4, 8) =~= be_u32(FTYP));
    lemma_read_be_u32_at(bytes, 0, 24);
    lemma_read_be_u32_at(bytes, 4, FTYP);
    lemma_walk_encoded(f, m.atoms, m.endian);
    let hs = atoms_from(bytes, 0, bytes.len() as int)->Ok_0;
    let tail = atoms_from(bytes, 24, bytes.len() as int)->Ok_0;
    assert(hs == seq![header_at(bytes, 0)] + tail);
    assert forall|k: int| 0 <= k < m.atoms.len() implies (#[trigger] hs[k + 1]).atom_type
        == m.atoms[k].atom_type && hs[k + 1].data_size == atom_body(m.atoms[k], m.endian).len() by {
        assert(hs[k + 1] == tail[k]);
    }
}

proof fn lemma_single_atom_bytes(atoms: Seq<ContainerView>, e: Endian)
    requires
        atoms.len() == 1,
    ensures
        atoms_bytes(atoms, e) == atom_bytes(atoms[0], e),
{
    assert(atoms.drop_last() =~= Seq::<ContainerView>::empty());
    assert(atoms_bytes(Seq::<ContainerView>::empty(), e) == Seq::<u8>::empty());
    assert(Seq::<u8>::empty() + atom_bytes(atoms[0], e) =~= atom_bytes(atoms[0], e));
}

/// Encoding a model that holds only a movie header container with creation
/// time `t1`, modification time `t2`, timescale `s`, duration `d` and matrix
/// `mx`, and walking the bytes that come out, gives a file-type atom and a
/// movie header atom whose fields read back as exactly those values.
#[verifier::rlimit(50)]
pub proof fn lemma_mvhd_round_trip(
    m: MetadataView,
    t1: u64,
    t2: u64,
    s: u32,
    d: u64,
    mx: [i32; 9],
    sv: Vec<u32>,
    dv: Vec<u64>,
)
    requires
        sv@ == seq![s],
        dv@ == seq![d],
        m.atoms.len() == 1,
        m.atoms[0].atom_type == MVHD,
        m.atoms[0].tags == seq![
            VideoTag::CreationTime(t1),
            VideoTag::ModificationTime(t2),
            VideoTag::Timescale(sv),
            VideoTag::Duration(dv),
            VideoTag::TransformMatrix(mx),
        ],
    ensures
        encoding(m) is Ok,
        ({
            let bytes = encoding(m)->Ok_0;
            &&& atoms_from(bytes, 0, bytes.len() as int) == Ok::<Seq<crate::atom::Atom>, int>(
                seq![header_at(bytes, 0), header_at(bytes, 24)],
            )
            &&& header_at(bytes, 0).atom_type == FTYP
            &&& header_at(bytes, 24).atom_type == MVHD
            &&& header_at(bytes, 24).data_offset == 32
            &&& header_at(bytes, 24).data_size == 112
            &&& parse_mvhd(bytes.subrange(32, 144)) == Some(
                MvhdFields {
                    creation_time: t1,
                    modification_time: t2,
                    timescale: s,
                    duration: d,
                    matrix: mx@,
                },
            )
        }),
{
    let c = m.atoms[0];
    let f = MvhdFields {
        creation_time: t1,
        modification_time: t2,
        timescale: s,
        duration: d,
        matrix: mx@,
    };
    lemma_header_tags_fields(t1, t2, s, d, mx, sv, dv);
    lemma_mvhd_body_layout(f);
    let body = mvhd_body(f);
    assert(atom_body(c, m.endian) == body);
    assert(all_fit(m.atoms, m.endian));
    let atom = be_u32(120) + be_u32(MVHD) + body;
    assert(atom_bytes(c, m.endian) == atom);
    lemma_single_atom_bytes(m.atoms, m.endian);
    let bytes = ftyp_atom() + atom;
    assert(encoding(m) == Ok::<Seq<u8>, MovError>(bytes));
    lemma_walk_header_stream(bytes, body);
}

/// A leaf atom found while decoding: its type, the bounds of its payload
/// and whether it is an entry of an item list.
#[derive(Clone, Copy, Debug, PartialEq, Eq, Structural)]
pub struct AtomSpan {
    pub atom_type: u32,
    pub start: usize,
    pub end: usize,
    pub in_item_list: bool,
}

/// Atom types whose payload is a run of child atoms.
pub open spec fn is_container_type(t: u32) -> bool {
    t == TRAK || t == MDIA || t == MINF || t == STBL || t == UDTA || t == META || t == ILST
}

/// Where the children of a container start: after the version and flags of
/// a metadata atom, at once for the others.
pub open spec fn children_start(t: u32, body: int) -> int {
    if t == META {
        body + 4
    } else {
        body
    }
}

/// The leaf atoms of the run from `pos` to `end`, in order, found by walking
/// into every container atom; `in_list` tells whether the run is the
/// content of an item list. A run ends at a malformed or truncated atom.
pub open spec fn leaves(d: Seq<u8>, pos: int, end: int, in_list: bool) -> Seq<AtomSpan>
    decreases end - pos,
{
    if pos < 0 || pos + 8 > end {
        Seq::empty()
    } else {
        let size = read_be_u32(d, pos) as int;
        if size < 8 || pos + size > end {
            Seq::empty()
        } else {
            let t = read_be_u32(d, pos + 4);
            let inner = if is_container_type(t) {
                if children_start(t, pos + 8) <= pos + size {
                    leaves(d, children_start(t, pos + 8), pos + size, t == ILST)
                } else {
                    Seq::empty()
                }
            } else {
                seq![
                    AtomSpan {
                        atom_type: t,
                        start: (pos + 8) as usize,
                        end: (pos + size) as usize,
                        in_item_list: in_list,
                    },
                ]
            };
            inner + leaves(d, pos + size, end, in_list)
        }
    }
}

#[verifier::spinoff_prover]
proof fn lemma_leaves_in_bounds(d: Seq<u8>, pos: int, end: int, in_list: bool)
    requires
        end <= d.len() <= usize::MAX,
    ensures
        forall|k: int|
            0 <= k < leaves(d, pos, end, in_list).len() ==> #[trigger] leaves(d, pos, end, in_list)[k].start
                <= leaves(d, pos, end, in_list)[k].end <= end,
    decreases end - pos,
{
    if pos < 0 || pos + 8 > end {
        assert(leaves(d, pos, end, in_list).len() == 0);
    } else {
        let size = read_be_u32(d, pos) as int;
        if size < 8 || pos + size > end {
            assert(leaves(d, pos, end, in_list).len() == 0);
        } else {
            let t = read_be_u32(d, pos + 4);
            lemma_leaves_in_bounds(d, pos + size, end, in_list);
            if is_container_type(t) && children_start(t, pos + 8) <= pos + size {
                lemma_leaves_in_bounds(d, children_start(t, pos + 8), pos + size, t == ILST);
            }
            let inner = if is_container_type(t) {
                if children_start(t, pos + 8) <= pos + size {
                    leaves(d, children_start(t, pos + 8), pos + size, t == ILST)
                } else {
                    Seq::empty()
                }
            } else {
                seq![
                    AtomSpan {
                        atom_type: t,
                        start: (pos + 8) as usize,
                        end: (pos + size) as usize,
                        in_item_list: in_list,
                    },
                ]
            };
            let rest = leaves(d, pos + size, end, in_list);
            let all = leaves(d, pos, end, in_list);
            assert(all == inner + rest);
            assert forall|k: int| 0 <= k < inner.len() implies #[trigger] inner[k].start
                <= inner[k].end <= end by {
                if !is_container_type(t) {
                    assert(inner[k].start == pos + 8);
                    assert(inner[k].end == pos + size);
                } else {
                    let cs = children_start(t, pos + 8);
                    assert(cs <= pos + size);
                    let sub = leaves(d, cs, pos + size, t == ILST);
                    assert(inner == sub);
                    assert(sub[k].start <= sub[k].end <= pos + size);
                }
            }
            assert forall|k: int| 0 <= k < all.len() implies #[trigger] all[k].start <= all[k].end
                <= end by {
                if k < inner.len() {
                    assert(all[k] == inner[k]);
                    assert(inner[k].start <= inner[k].end <= end);
                } else {
                    let k2 = k - inner.len();
                    assert(all[k] == rest[k2]);
                    assert(rest[k2].start <= rest[k2].end <= end);
                }
            }
        }
    }
}

/// Appends the leaf atoms of the run from `pos` to `end`.
fn collect_leaves(d: &[u8], pos: usize, end: usize, in_list: bool, out: &mut Vec<AtomSpan>)
    requires
        end <= d@.len(),
    ensures
        final(out)@ == old(out)@ + leaves(d@, pos as int, end as int, in_list),
    decreases end - pos,
{
    if pos > end || end - pos < 8 {
        assert(old(out)@ + leaves(d@, pos as int, end as int, in_list) =~= old(out)@);
        return;
    }
    let size = get_be_u32(d, pos) as usize;
    if size < 8 || size > end - pos {
        assert(old(out)@ + leaves(d@, pos as int, end as int, in_list) =~= old(out)@);
        return;
    }
    let t = get_be_u32(d, pos + 4);
    let atom_end = pos + size;
    if t == TRAK || t == MDIA || t == MINF || t == STBL || t == UDTA || t == META || t == ILST {
        if t != META {
            collect_leaves(d, pos + 8, atom_end, t == ILST, out);
        } else if size >= 12 {
            collect_leaves(d, pos + 12, atom_end, false, out);
        }
    } else {
        out.push(AtomSpan { atom_type: t, start: pos + 8, end: atom_end, in_item_list: in_list });
    }
    collect_leaves(d, atom_end, end, in_list, out);
    assert(final(out)@ =~= old(out)@ + leaves(d@, pos as int, end as int, in_list));
}

/// The value of an item-list entry: what its data atom holds after the
/// type and locale fields, or the whole payload where there is no such atom.
pub open spec fn item_value(p: Seq<u8>) -> Seq<u8> {
    if p.len() >= 16 && read_be_u32(p, 4) == DATA && 16 <= read_be_u32(p, 0) <= p.len() {
        p.subrange(16, read_be_u32(p, 0) as int)
    } else {
        p
    }
}

fn item_value_of(p: &[u8]) -> (r: Vec<u8>)
    ensures
        r@ == item_value(p@),
{
    if p.len() >= 16 && get_be_u32(p, 4) == DATA {
        let size = get_be_u32(p, 0) as usize;
        if 16 <= size && size <= p.len() {
            return copy_range(p, 16, size);
        }
    }
    copy_range(p, 0, p.len())
}

/// Copies `d[start..end]`.
fn copy_range(d: &[u8], start: usize, end: usize) -> (r: Vec<u8>)
    requires
        start <= end <= d@.len(),
    ensures
        r@ == d@.subrange(start as int, end as int),
{
    let mut r: Vec<u8> = Vec::new();
    let mut i = start;
    while i < end
        invariant
            start <= i <= end <= d@.len(),
            r@ == d@.subrange(start as int, i as int),
        decreases end - i,
    {
        r.push(d[i]);
        assert(r@ =~= d@.subrange(start as int, i + 1));
        i += 1;
    }
    r
}

/// Whether a leaf adds to the model: every leaf does but a movie header
/// whose body cannot be read.
pub open spec fn contributes(d: Seq<u8>, l: AtomSpan) -> bool {
    l.atom_type != MVHD || parse_mvhd(d.subrange(l.start as int, l.end as int)) is Some
}

/// `x` is a tag that the leaf `l` of `d` gives: an item-list entry the
/// catalog tag of its type that encodes to its value, a movie header one of
/// its fields, any other atom its payload as binary data of its type.
pub open spec fn tag_from_leaf(d: Seq<u8>, l: AtomSpan, x: VideoTag) -> bool {
    let p = d.subrange(l.start as int, l.end as int);
    if l.in_item_list {
        &&& x.spec_atom_type() == l.atom_type
        &&& x.spec_value_bytes(Endian::Big) == item_value(p)
        &&& item_kind_matches(l.atom_type, item_value(p), x)
    } else if l.atom_type == MVHD {
        parse_mvhd(p) matches Some(f) && match x {
            VideoTag::CreationTime(t) => t == f.creation_time,
            VideoTag::ModificationTime(t) => t == f.modification_time,
            VideoTag::Timescale(v) => v@ == seq![f.timescale],
            VideoTag::Duration(v) => v@ == seq![f.duration],
            VideoTag::TransformMatrix(m) => m@ == f.matrix,
            _ => false,
        }
    } else {
        x matches VideoTag::UnknownVBINARY(v, t) && t == l.atom_type && v@ == p
    }
}

pub open spec fn from_some_leaf(d: Seq<u8>, ls: Seq<AtomSpan>, x: VideoTag) -> bool {
    exists|q: int| 0 <= q < ls.len() && tag_from_leaf(d, ls[q], x)
}

/// Every tag of the containers satisfies `p`.
pub open spec fn all_tags_satisfy(atoms: Seq<ContainerView>, p: spec_fn(VideoTag) -> bool) -> bool {
    forall|j: int, k: int|
        0 <= j < atoms.len() && 0 <= k < atoms[j].tags.len() ==> p(#[trigger] atoms[j].tags[k])
}

proof fn lemma_with_tag_in_tags(
    atoms: Seq<ContainerView>,
    t: u32,
    tag: VideoTag,
    p: spec_fn(VideoTag) -> bool,
)
    requires
        all_tags_satisfy(atoms, p),
        p(tag),
    ensures
        all_tags_satisfy(with_tag_in(atoms, t, tag), p),
{
    broadcast use vstd::seq_lib::group_filter_ensures;

    let r = with_tag_in(atoms, t, tag);
    if has_type(atoms, t) {
        let i = index_of(atoms, t);
        let f = atoms[i].tags.filter(differs_from(tag));
        assert forall|j: int, k: int| 0 <= j < r.len() && 0 <= k < r[j].tags.len() implies p(
            #[trigger] r[j].tags[k],
        ) by {
            if j == i {
                if k < f.len() {
                    assert(r[j].tags[k] == f[k]);
                    assert(f.contains(f[k]));
                    atoms[i].tags.lemma_filter_contains_rev(differs_from(tag), f[k]);
                    assert(atoms[i].tags.contains(f[k]));
                    let kk = choose|kk: int| 0 <= kk < atoms[i].tags.len() && atoms[i].tags[kk] == f[k];
                    assert(p(atoms[i].tags[kk]));
                }
            } else {
                assert(r[j] == atoms[j]);
            }
        }
    } else {
        assert forall|j: int, k: int| 0 <= j < r.len() && 0 <= k < r[j].tags.len() implies p(
            #[trigger] r[j].tags[k],
        ) by {
            if j < atoms.len() {
                assert(r[j] == atoms[j]);
            }
        }
    }
}

/// What decoding the movie atom's payload `d` gives: a well-formed big-endian
/// model with a container for each atom type of the leaves that add to it,
/// none for another type, and only tags that its leaves give.
pub open spec fn decoded_from(d: Seq<u8>, m: MetadataView) -> bool {
    let ls = leaves(d, 0, d.len() as int, false);
    &&& unique_types(m.atoms)
    &&& m.endian == Endian::Big
    &&& forall|k: int|
        0 <= k < ls.len() && contributes(d, #[trigger] ls[k]) ==> has_type(
            m.atoms,
            ls[k].atom_type,
        )
    &&& forall|j: int| 0 <= j < m.atoms.len() ==> has_leaf_type(ls, #[trigger] m.atoms[j].atom_type)
    &&& all_tags_satisfy(m.atoms, |x: VideoTag| from_some_leaf(d, ls, x))
}

pub open spec fn has_leaf_type(ls: Seq<AtomSpan>, t: u32) -> bool {
    exists|k: int| 0 <= k < ls.len() && ls[k].atom_type == t
}

proof fn lemma_with_tag_types(atoms: Seq<ContainerView>, tt: u32, tag: VideoTag)
    ensures
        forall|t: u32|
            #[trigger] has_type(with_tag_in(atoms, tt, tag), t) <==> has_type(atoms, t) || t == tt,
{
    let r = with_tag_in(atoms, tt, tag);
    assert forall|t: u32| #[trigger] has_type(r, t) <==> has_type(atoms, t) || t == tt by {
        if has_type(atoms, tt) {
            let i = index_of(atoms, tt);
            if has_type(r, t) {
                let j = choose|j: int| 0 <= j < r.len() && r[j].atom_type == t;
                assert(atoms[j].atom_type == t || j == i);
            }
            if has_type(atoms, t) {
                let j = choose|j: int| 0 <= j < atoms.len() && atoms[j].atom_type == t;
                assert(r[j].atom_type == t);
            }
            if t == tt {
                assert(r[i].atom_type == t);
            }
        } else {
            if has_type(r, t) {
                let j = choose|j: int| 0 <= j < r.len() && r[j].atom_type == t;
                if j < atoms.len() {
                    assert(atoms[j].atom_type == t);
                }
            }
            if has_type(atoms, t) {
                let j = choose|j: int| 0 <= j < atoms.len() && atoms[j].atom_type == t;
                assert(r[j].atom_type == t);
            }
            if t == tt {
                assert(r[atoms.len() as int].atom_type == t);
            }
        }
    }
}

fn push_zeros(out: &mut Vec<u8>, n: usize)
    ensures
        final(out)@ == old(out)@ + zeros(n as nat),
{
    let mut i: usize = 0;
    while i < n
        invariant
            i <= n,
            out@ == old(out)@ + zeros(i as nat),
        decreases n - i,
    {
        out.push(0u8);
        assert(out@ =~= old(out)@ + zeros((i + 1) as nat));
        i += 1;
    }
}

/// Tags that an atom type code identifies.
pub open spec fn has_id(id: u32) -> spec_fn(VideoTag) -> bool {
    |x: VideoTag| x.spec_atom_type() == id
}

/// The tags that a lookup by `id` sees: those of every container, or of the
/// container of type `t` alone.
pub open spec fn tags_in_scope(atoms: Seq<ContainerView>, t: Option<u32>) -> Seq<VideoTag> {
    match t {
        None => all_tags(atoms),
        Some(t) => if has_type(atoms, t) {
            atoms[index_of(atoms, t)].tags
        } else {
            Seq::empty()
        },
    }
}

fn refs_of(tags: &Vec<VideoTag>) -> (r: Vec<&VideoTag>)
    ensures
        referenced(r@) == tags@,
{
    let mut out: Vec<&VideoTag> = Vec::new();
    let mut j: usize = 0;
    while j < tags.len()
        invariant
            j <= tags@.len(),
            referenced(out@) == tags@.take(j as int),
        decreases tags@.len() - j,
    {
        let ghost prev = out@;
        out.push(&tags[j]);
        assert(referenced(out@) =~= referenced(prev).push(tags@[j as int]));
        assert(tags@.take(j + 1) =~= tags@.take(j as int).push(tags@[j as int]));
        j += 1;
    }
    assert(tags@.take(j as int) =~= tags@);
    out
}

/// Keeps the references to tags of the identity of `tag`, or, with no tag,
/// to tags of atom type `id`.
fn keep_matching<'a>(all: Vec<&'a VideoTag>, tag: Option<&VideoTag>, id: u32) -> (r: Vec<&'a VideoTag>)
    ensures
        tag matches Some(t) ==> referenced(r@) == referenced(all@).filter(same_as(*t)),
        tag is None ==> referenced(r@) == referenced(all@).filter(has_id(id)),
{
    let ghost p = match tag {
        Some(t) => same_as(*t),
        None => has_id(id),
    };
    let mut out: Vec<&'a VideoTag> = Vec::new();
    let mut k: usize = 0;
    while k < all.len()
        invariant
            k <= all@.len(),
            p == (match tag {
                Some(t) => same_as(*t),
                None => has_id(id),
            }),
            referenced(out@) == referenced(all@).take(k as int).filter(p),
        decreases all@.len() - k,
    {
        let x = all[k];
        let keep = match tag {
            Some(t) => x.has_same_identity(t),
            None => x.as_u32() == id,
        };
        proof {
            assert(referenced(all@).take(k + 1) =~= referenced(all@).take(k as int).push(*x));
            referenced(all@).take(k as int).lemma_filter_push(*x, p);
        }
        if keep {
            let ghost prev = out@;
            out.push(x);
            assert(referenced(out@) =~= referenced(prev).push(*x));
        }
        k += 1;
    }
    assert(referenced(all@).take(k as int) =~= referenced(all@));
    out
}

proof fn lemma_all_tags_prefix(atoms: Seq<ContainerView>, k: int)
    requires
        0 <= k <= atoms.len(),
    ensures
        all_tags(atoms.take(k)).len() <= all_tags(atoms).len(),
        forall|j: int|
            0 <= j < all_tags(atoms.take(k)).len() ==> #[trigger] all_tags(atoms)[j] == all_tags(
                atoms.take(k),
            )[j],
    decreases atoms.len(),
{
    if k == atoms.len() {
        assert(atoms.take(k) =~= atoms);
    } else {
        let init = atoms.drop_last();
        assert(init.take(k) =~= atoms.take(k));
        lemma_all_tags_prefix(init, k);
    }
}

/// A traversal of every tag, container by container, each container's in
/// its order; it keeps the position of the next tag as a container index
/// and a tag index.
pub struct VideoMetadataIterator<'a> {
    v_metadata: &'a VideoMetadata,
    atom_index: usize,
    tag_index: usize,
}

impl<'a> VideoMetadataIterator<'a> {
    /// The model traversed.
    pub closed spec fn model(&self) -> MetadataView {
        self.v_metadata@
    }

    /// How many tags the traversal has handed out.
    pub closed spec fn produced(&self) -> int {
        all_tags(self.v_metadata@.atoms.take(self.atom_index as int)).len() + self.tag_index
    }

    pub closed spec fn inv(&self) -> bool {
        let atoms = self.v_metadata@.atoms;
        &&& self.atom_index <= atoms.len()
        &&& self.atom_index < atoms.len() ==> self.tag_index <= atoms[self.atom_index as int].tags.len()
        &&& self.atom_index == atoms.len() ==> self.tag_index == 0
    }

    /// The next tag, if any is left.
    pub fn next(&mut self) -> (r: Option<&'a VideoTag>)
        requires
            old(self).inv(),
        ensures
            final(self).inv(),
            final(self).model() == old(self).model(),
            old(self).produced() < all_tags(old(self).model().atoms).len() ==> (r matches Some(t)
                && *t == all_tags(old(self).model().atoms)[old(self).produced()])
                && final(self).produced() == old(self).produced() + 1,
            old(self).produced() >= all_tags(old(self).model().atoms).len() ==> r is None
                && final(self).produced() == old(self).produced(),
    {
        let ghost atoms = old(self).v_metadata@.atoms;
        let ghost p = old(self).produced();
        proof {
            let ai = self.atom_index as int;
            lemma_all_tags_prefix(atoms, ai);
            if ai < atoms.len() {
                assert(atoms.take(ai + 1).drop_last() =~= atoms.take(ai));
                lemma_all_tags_prefix(atoms, ai + 1);
            } else {
                assert(atoms.take(ai) =~= atoms);
            }
        }
        while self.atom_index < self.v_metadata.atoms.len()
            invariant
                self.inv(),
                self.v_metadata@.atoms == atoms,
                self.model() == old(self).model(),
                self.produced() == p,
                p == old(self).produced(),
                atoms == old(self).model().atoms,
                p <= all_tags(atoms).len(),
            decreases atoms.len() - self.atom_index,
        {
            let ai = self.atom_index;
            let tags = &self.v_metadata.atoms[ai].tags;
            proof {
                assert(atoms[ai as int].tags == tags@);
                assert(atoms.take(ai + 1).drop_last() =~= atoms.take(ai as int));
                lemma_all_tags_prefix(atoms, ai + 1);
            }
            if self.tag_index < tags.len() {
                let ti = self.tag_index;
                self.tag_index = ti + 1;
                proof {
                    let pre = all_tags(atoms.take(ai as int));
                    assert(all_tags(atoms.take(ai + 1)) == pre + tags@);
                    assert(all_tags(atoms.take(ai + 1))[p] == tags@[ti as int]);
                    assert(p < all_tags(atoms.take(ai + 1)).len());
                    assert(all_tags(atoms)[p] == all_tags(atoms.take(ai + 1))[p]);
                }
                return Some(&tags[ti]);
            }
            self.atom_index = ai + 1;
            self.tag_index = 0;
            proof {
                if ai + 1 < atoms.len() {
                    lemma_all_tags_prefix(atoms, ai + 2);
                }
            }
        }
        proof {
            assert(atoms.take(atoms.len() as int) =~= atoms);
        }
        None
    }
}

impl VideoAtomContainer {
    /// Rank of the container in the order of containers.
    pub fn get_atom_priority(&self) -> (r: u32)
        ensures
            r == priority(self@.atom_type),
    {
        let t = self.atom_type;
        if t == FTYP {
            0
        } else if t == MOOV {
            1
        } else if t == MVHD {
            2
        } else if t == TRAK {
            3
        } else if t == META {
            4
        } else {
            999
        }
    }

    /// Whether the container is kept when the model is reduced to its
    /// essentials.
    pub fn is_essential_atom(&self) -> (r: bool)
        ensures
            r == is_essential_atom_type(self@.atom_type),
    {
        self.atom_type == FTYP || self.atom_type == MOOV || self.atom_type == MVHD
            || self.atom_type == TRAK
    }

    /// The container's tags.
    pub fn get_tags(&self) -> (r: &Vec<VideoTag>)
        ensures
            r@ == self@.tags,
    {
        &self.tags
    }
}

impl VideoAtom for VideoAtomContainer {
    fn get_atom_type(&self) -> u32 {
        self.atom_type
    }

    fn get_size(&self) -> u64 {
        self.size
    }
}

impl VideoMetadata {
    pub open spec fn wf(&self) -> bool {
        unique_types(self@.atoms)
    }

    /// An empty big-endian model.
    pub fn new() -> (r: VideoMetadata)
        ensures
            r@.endian == Endian::Big,
            r@.atoms.len() == 0,
            r.wf(),
    {
        let r = VideoMetadata { endian: Endian::Big, atoms: Vec::new() };
        assert(r@.atoms =~= Seq::<ContainerView>::empty());
        r
    }

    /// The byte order of tag values.
    pub fn get_endian(&self) -> (r: Endian)
        ensures
            r == self@.endian,
    {
        self.endian
    }

    /// The containers, in order.
    pub fn get_atoms(&self) -> (r: &Vec<VideoAtomContainer>)
        ensures
            r@.map_values(|c: VideoAtomContainer| c@) == self@.atoms,
    {
        &self.atoms
    }

    /// The position of the container of type `atom_type`, if there is one.
    fn position(&self, atom_type: u32) -> (r: Option<usize>)
        requires
            self.wf(),
        ensures
            r is None <==> !has_type(self@.atoms, atom_type),
            r matches Some(i) ==> i < self@.atoms.len() && self@.atoms[i as int].atom_type
                == atom_type && i == index_of(self@.atoms, atom_type),
    {
        let mut i: usize = 0;
        while i < self.atoms.len()
            invariant
                i <= self.atoms@.len(),
                self.wf(),
                forall|j: int| 0 <= j < i ==> self@.atoms[j].atom_type != atom_type,
            decreases self.atoms@.len() - i,
        {
            assert(self@.atoms[i as int] == self.atoms@[i as int]@);
            if self.atoms[i].atom_type == atom_type {
                proof {
                    assert(self@.atoms[i as int] == self.atoms@[i as int]@);
                    assert(has_type(self@.atoms, atom_type));
                    let k = index_of(self@.atoms, atom_type);
                    assert(0 <= k < self@.atoms.len() && self@.atoms[k].atom_type == atom_type);
                    assert(k == i);
                }
                return Some(i);
            }
            i += 1;
        }
        None
    }

    /// The container of type `atom_type`, if there is one.
    pub fn get_atom(&self, atom_type: u32) -> (r: Option<&VideoAtomContainer>)
        requires
            self.wf(),
        ensures
            r is None <==> !has_type(self@.atoms, atom_type),
            r matches Some(c) ==> c@ == self@.atoms[index_of(self@.atoms, atom_type)],
    {
        match self.position(atom_type) {
            Some(i) => Some(&self.atoms[i]),
            None => None,
        }
    }

    /// Sets `tag` in the container of its atom type, which is created when
    /// there is none, replacing every tag of the same identity there.
    pub fn set_tag(&mut self, tag: VideoTag)
        requires
            old(self).wf(),
        ensures
            final(self).wf(),
            final(self)@.endian == old(self)@.endian,
            final(self)@.atoms == with_tag(old(self)@.atoms, tag),
    {
        let atom_type = tag.as_u32();
        self.set_tag_in(atom_type, tag);
    }

    /// Sets `tag` in the container of type `atom_type`, which is created when
    /// there is none, replacing every tag of the same identity there.
    pub fn set_tag_in(&mut self, atom_type: u32, tag: VideoTag)
        requires
            old(self).wf(),
        ensures
            final(self).wf(),
            final(self)@.endian == old(self)@.endian,
            final(self)@.atoms == with_tag_in(old(self)@.atoms, atom_type, tag),
    {
        match self.position(atom_type) {
            Some(i) => {
                let c = self.atoms.remove(i);
                let VideoAtomContainer { atom_type: t, size, tags } = c;
                let mut kept = without_identity(tags, &tag);
                kept.push(tag);
                let ghost new_tags = kept@;
                self.atoms.insert(i, VideoAtomContainer { atom_type: t, size, tags: kept });
                proof {
                    let pre = old(self)@.atoms;
                    assert(self@.atoms =~= pre.update(
                        i as int,
                        ContainerView { tags: new_tags, ..pre[i as int] },
                    ));
                    assert(self@.atoms[i as int].atom_type == pre[i as int].atom_type);
                    assert forall|a: int, b: int|
                        0 <= a < self@.atoms.len() && 0 <= b < self@.atoms.len() && a != b implies
                        self@.atoms[a].atom_type != self@.atoms[b].atom_type by {
                        assert(self@.atoms[a].atom_type == pre[a].atom_type);
                        assert(self@.atoms[b].atom_type == pre[b].atom_type);
                    }
                }
            },
            None => {
                let mut tags: Vec<VideoTag> = Vec::new();
                tags.push(tag);
                self.atoms.push(VideoAtomContainer { atom_type, size: 0, tags });
                proof {
                    let pre = old(self)@.atoms;
                    assert(self@.atoms =~= pre.push(
                        ContainerView { atom_type, size: 0, tags: seq![tag] },
                    ));
                    assert forall|a: int, b: int|
                        0 <= a < self@.atoms.len() && 0 <= b < self@.atoms.len() && a != b implies
                        self@.atoms[a].atom_type != self@.atoms[b].atom_type by {
                        if a == pre.len() {
                            assert(pre[b].atom_type != atom_type);
                        } else if b == pre.len() {
                            assert(pre[a].atom_type != atom_type);
                        }
                    }
                }
            },
        }
    }

    /// Keeps only the essential containers, and in each only its essential
    /// tags.
    pub fn reduce_to_minimum(&mut self)
        requires
            old(self).wf(),
        ensures
            final(self).wf(),
            final(self)@.endian == old(self)@.endian,
            final(self)@.atoms == minimized(old(self)@.atoms),
    {
        let ghost pre = old(self)@.atoms;
        let ghost p = essential_container();
        let mut rest: Vec<VideoAtomContainer> = Vec::new();
        std::mem::swap(&mut rest, &mut self.atoms);
        let mut out: Vec<VideoAtomContainer> = Vec::new();
        while rest.len() > 0
            invariant
                views(out@) + minimized(views(rest@)) == minimized(pre),
                p == essential_container(),
            decreases rest@.len(),
        {
            let ghost before = rest@;
            let x = rest.remove(0);
            proof {
                assert(views(before) =~= seq![x@] + views(rest@));
                views(rest@).lemma_filter_prepend(x@, p);
                let kept = if p(x@) { seq![x@] } else { Seq::empty() };
                assert((kept + views(rest@).filter(p)).map_values(
                    |c: ContainerView| essential_part(c),
                ) =~= kept.map_values(|c: ContainerView| essential_part(c)) + minimized(
                    views(rest@),
                ));
            }
            if x.is_essential_atom() {
                let VideoAtomContainer { atom_type, size, tags } = x;
                let c = VideoAtomContainer { atom_type, size, tags: essential_tags(tags) };
                let ghost old_out = out@;
                out.push(c);
                assert(views(out@) =~= views(old_out).push(essential_part(x@)));
                assert(views(out@) + minimized(views(rest@)) =~= minimized(pre));
            } else {
                assert(views(out@) + minimized(views(rest@)) =~= minimized(pre));
            }
        }
        assert(views(out@) =~= minimized(pre));
        self.atoms = out;
        proof {
            lemma_filter_unique(pre, p);
            let f = pre.filter(p);
            assert(minimized(pre).len() == f.len());
            assert forall|i: int| 0 <= i < f.len() implies #[trigger] minimized(pre)[i].atom_type
                == f[i].atom_type by {}
        }
    }

    /// Orders the containers by priority, keeping the order of those of equal
    /// priority.
    pub fn sort_data(&mut self)
        requires
            old(self).wf(),
        ensures
            final(self).wf(),
            final(self)@.endian == old(self)@.endian,
            final(self)@.atoms == priority_sorted(old(self)@.atoms),
    {
        let ghost s = old(self)@.atoms;
        let mut rest: Vec<VideoAtomContainer> = Vec::new();
        std::mem::swap(&mut rest, &mut self.atoms);
        let (mut out, rest) = split_priority(rest, 0);
        proof {
            lemma_filter_ext(s, lacks_priority(0), priority_above(0));
        }
        let (mut s1, rest) = split_priority(rest, 1);
        proof {
            lemma_filter_filter(s, priority_above(0), has_priority(1), has_priority(1));
            lemma_filter_filter(s, priority_above(0), lacks_priority(1), priority_above(1));
        }
        let (mut s2, rest) = split_priority(rest, 2);
        proof {
            lemma_filter_filter(s, priority_above(1), has_priority(2), has_priority(2));
            lemma_filter_filter(s, priority_above(1), lacks_priority(2), priority_above(2));
        }
        let (mut s3, rest) = split_priority(rest, 3);
        proof {
            lemma_filter_filter(s, priority_above(2), has_priority(3), has_priority(3));
            lemma_filter_filter(s, priority_above(2), lacks_priority(3), priority_above(3));
        }
        let (mut s4, mut rest) = split_priority(rest, 4);
        proof {
            lemma_filter_filter(s, priority_above(3), has_priority(4), has_priority(4));
            lemma_filter_filter(s, priority_above(3), lacks_priority(4), priority_above(4));
            lemma_filter_ext(s, priority_above(4), has_priority(999));
        }
        let ghost (v0, v1, v2, v3, v4, v5) = (out@, s1@, s2@, s3@, s4@, rest@);
        out.append(&mut s1);
        out.append(&mut s2);
        out.append(&mut s3);
        out.append(&mut s4);
        out.append(&mut rest);
        assert(views(out@) =~= views(v0) + views(v1) + views(v2) + views(v3) + views(v4) + views(
            v5,
        ));
        self.atoms = out;
        proof {
            lemma_sorted_unique(s);
        }
    }

    /// The tags of the identity of `tag`, in the order of the traversal.
    pub fn get_tag(&self, tag: &VideoTag) -> (r: Vec<&VideoTag>)
        ensures
            referenced(r@) == all_tags(self@.atoms).filter(same_as(*tag)),
    {
        keep_matching(self.tags_in_order(), Some(tag), 0)
    }

    /// The tags of atom type `tag_id`, in the order of the traversal; with
    /// `atom_type`, only those in the container of that type.
    pub fn get_tag_by_id(&self, tag_id: u32, atom_type: Option<u32>) -> (r: Vec<&VideoTag>)
        requires
            self.wf(),
        ensures
            referenced(r@) == tags_in_scope(self@.atoms, atom_type).filter(has_id(tag_id)),
    {
        let all = match atom_type {
            None => self.tags_in_order(),
            Some(t) => match self.position(t) {
                Some(i) => {
                    assert(self@.atoms[i as int].tags == self.atoms@[i as int].tags@);
                    refs_of(&self.atoms[i].tags)
                },
                None => Vec::new(),
            },
        };
        assert(referenced(all@) =~= tags_in_scope(self@.atoms, atom_type));
        keep_matching(all, None, tag_id)
    }

    /// A traversal of every tag from the first.
    pub fn into_iter(&self) -> (r: VideoMetadataIterator<'_>)
        ensures
            r.inv(),
            r.model() == self@,
            r.produced() == 0,
    {
        let r = VideoMetadataIterator { v_metadata: self, atom_index: 0, tag_index: 0 };
        assert(self@.atoms.take(0) =~= Seq::<ContainerView>::empty());
        r
    }

    /// Every tag, container by container, each container's in its order.
    pub fn tags_in_order(&self) -> (r: Vec<&VideoTag>)
        ensures
            referenced(r@) == all_tags(self@.atoms),
    {
        let mut out: Vec<&VideoTag> = Vec::new();
        let mut i: usize = 0;
        while i < self.atoms.len()
            invariant
                i <= self.atoms@.len(),
                referenced(out@) == all_tags(self@.atoms.take(i as int)),
            decreases self.atoms@.len() - i,
        {
            let tags = &self.atoms[i].tags;
            let ghost base = referenced(out@);
            let mut j: usize = 0;
            while j < tags.len()
                invariant
                    j <= tags@.len(),
                    referenced(out@) == base + tags@.take(j as int),
                decreases tags@.len() - j,
            {
                let ghost prev = out@;
                out.push(&tags[j]);
                assert(out@ == prev.push(&tags@[j as int]));
                assert(referenced(out@) =~= referenced(prev).push(tags@[j as int]));
                assert(tags@.take(j + 1) =~= tags@.take(j as int).push(tags@[j as int]));
                assert(referenced(out@) =~= base + tags@.take(j + 1));
                j += 1;
            }
            proof {
                assert(tags@.take(j as int) =~= tags@);
                assert(self@.atoms.take(i + 1).drop_last() =~= self@.atoms.take(i as int));
                assert(self@.atoms[i as int].tags == tags@);
            }
            i += 1;
        }
        assert(self@.atoms.take(i as int) =~= self@.atoms);
        out
    }

    /// Writes the file-type atom.
    fn write_ftyp_atom(&self, data: &mut Vec<u8>)
        ensures
            final(data)@ == old(data)@ + ftyp_atom(),
    {
        let ftyp_data: [u8; 16] = [
            0x6D, 0x70, 0x34, 0x31,  // major brand 'mp41'
            0x00, 0x00, 0x00, 0x00,  // minor version 0
            0x6D, 0x70, 0x34, 0x31, 0x69, 0x73, 0x6F, 0x6D,  // compatible brands 'mp41', 'isom'
        ];
        push_u32(data, 24, Endian::Big);
        push_u32(data, FTYP, Endian::Big);
        push_all(data, &ftyp_data);
        assert(final(data)@ =~= old(data)@ + ftyp_atom());
    }

    /// Appends the encodings of the container's tags.
    fn encode_basic_atom(&self, atom: &VideoAtomContainer, data: &mut Vec<u8>)
        ensures
            final(data)@ == old(data)@ + tags_bytes(atom@.tags, self@.endian),
    {
        let mut i: usize = 0;
        while i < atom.tags.len()
            invariant
                i <= atom.tags@.len(),
                data@ == old(data)@ + tags_bytes(atom@.tags.take(i as int), self@.endian),
            decreases atom.tags@.len() - i,
        {
            let bytes = atom.tags[i].value_as_u8_vec(&self.endian);
            push_all(data, bytes.as_slice());
            proof {
                assert(atom@.tags.take(i + 1).drop_last() =~= atom@.tags.take(i as int));
            }
            i += 1;
        }
        assert(atom@.tags.take(i as int) =~= atom@.tags);
    }

    /// Appends the body of a metadata atom.
    fn encode_meta_atom(&self, atom: &VideoAtomContainer, data: &mut Vec<u8>)
        ensures
            final(data)@ == old(data)@ + zeros(4) + tags_bytes(atom@.tags, self@.endian),
    {
        push_zeros(data, 4);
        self.encode_basic_atom(atom, data);
        assert(final(data)@ =~= old(data)@ + zeros(4) + tags_bytes(atom@.tags, self@.endian));
    }

    /// Appends the body of a movie header atom.
    fn encode_mvhd_atom(&self, atom: &VideoAtomContainer, data: &mut Vec<u8>)
        ensures
            final(data)@ == old(data)@ + mvhd_body(mvhd_fields(atom@.tags)),
    {
        let mut creation_time: u64 = 0;
        let mut modification_time: u64 = 0;
        let mut timescale: u32 = 1000;
        let mut duration: u64 = 0;
        let mut matrix: [i32; 9] = [0x00010000, 0, 0, 0, 0x00010000, 0, 0, 0, 0x40000000];
        assert(matrix@ =~= identity_matrix());
        let mut i: usize = 0;
        while i < atom.tags.len()
            invariant
                i <= atom.tags@.len(),
                mvhd_fields(atom@.tags.take(i as int)) == (MvhdFields {
                    creation_time,
                    modification_time,
                    timescale,
                    duration,
                    matrix: matrix@,
                }),
            decreases atom.tags@.len() - i,
        {
            match &atom.tags[i] {
                VideoTag::CreationTime(t) => {
                    if *t != 0 {
                        creation_time = *t;
                    }
                },
                VideoTag::ModificationTime(t) => {
                    if *t != 0 {
                        modification_time = *t;
                    }
                },
                VideoTag::Timescale(v) => {
                    if v.len() > 0 {
                        timescale = v[0];
                    }
                },
                VideoTag::Duration(v) => {
                    if v.len() > 0 {
                        duration = v[0];
                    }
                },
                VideoTag::TransformMatrix(m) => {
                    matrix = *m;
                },
                _ => {},
            }
            proof {
                assert(atom@.tags.take(i + 1).drop_last() =~= atom@.tags.take(i as int));
            }
            i += 1;
        }
        assert(atom@.tags.take(i as int) =~= atom@.tags);
        push_zeros(data, 4);
        push_u64(data, creation_time, Endian::Big);
        push_u64(data, modification_time, Endian::Big);
        push_u32(data, timescale, Endian::Big);
        push_u64(data, duration, Endian::Big);
        push_u32(data, 0x00010000, Endian::Big);  // rate 1.0
        push_u16(data, 0x0100, Endian::Big);  // volume 1.0
        push_zeros(data, 10);  // reserved
        push_i32s(data, &matrix, Endian::Big);
        push_zeros(data, 24);  // predefined
        push_u32(data, 1, Endian::Big);  // next track id
        reveal(mvhd_body);
        assert(final(data)@ =~= old(data)@ + mvhd_body(mvhd_fields(atom@.tags)));
    }

    /// The body of the atom that `atom` becomes.
    fn encode_atom(&self, atom: &VideoAtomContainer) -> (r: Vec<u8>)
        ensures
            r@ == atom_body(atom@, self@.endian),
    {
        let mut atom_data: Vec<u8> = Vec::new();
        if atom.atom_type == MVHD {
            self.encode_mvhd_atom(atom, &mut atom_data);
        } else if atom.atom_type == META {
            self.encode_meta_atom(atom, &mut atom_data);
        } else {
            self.encode_basic_atom(atom, &mut atom_data);
        }
        assert(atom_data@ =~= atom_body(atom@, self@.endian));
        atom_data
    }

    /// Encodes the model: a file-type atom, then one atom per container in
    /// order, each a big-endian size and type followed by its body.
    pub fn encode(&self) -> (r: Result<Vec<u8>, MovError>)
        ensures
            match r {
                Ok(v) => encoding(self@) == Ok::<Seq<u8>, MovError>(v@),
                Err(e) => encoding(self@) == Err::<Seq<u8>, MovError>(e),
            },
    {
        let mut encode_vec: Vec<u8> = Vec::new();
        self.write_ftyp_atom(&mut encode_vec);
        let mut i: usize = 0;
        while i < self.atoms.len()
            invariant
                i <= self.atoms@.len(),
                encode_vec@ == ftyp_atom() + atoms_bytes(self@.atoms.take(i as int), self@.endian),
                all_fit(self@.atoms.take(i as int), self@.endian),
            decreases self.atoms@.len() - i,
        {
            let atom = &self.atoms[i];
            assert(self@.atoms[i as int] == atom@);
            let atom_data = self.encode_atom(atom);
            if atom_data.len() > 0xFFFF_FFF7 {
                assert(!all_fit(self@.atoms, self@.endian)) by {
                    assert(atom_body(self@.atoms[i as int], self@.endian).len() + 8 > u32::MAX);
                }
                return Err(MovError::AtomTooLarge);
            }
            let atom_size = (atom_data.len() + 8) as u32;
            push_u32(&mut encode_vec, atom_size, Endian::Big);
            push_u32(&mut encode_vec, atom.atom_type, Endian::Big);
            push_all(&mut encode_vec, atom_data.as_slice());
            proof {
                let t = self@.atoms.take(i + 1);
                assert(t.drop_last() =~= self@.atoms.take(i as int));
                assert(t.last() == atom@);
                assert(encode_vec@ =~= ftyp_atom() + atoms_bytes(t, self@.endian));
                assert forall|k: int| 0 <= k < t.len() implies atom_body(#[trigger] t[k], self@.endian).len() + 8
                    <= u32::MAX by {
                    if k < i {
                        assert(t[k] == self@.atoms.take(i as int)[k]);
                    }
                }
            }
            i += 1;
        }
        assert(self@.atoms.take(i as int) =~= self@.atoms);
        Ok(encode_vec)
    }

    /// Sets `tag` in the container of type `atom_type`, keeping track of
    /// the atom types present.
    fn add_tag(&mut self, atom_type: u32, tag: VideoTag)
        requires
            old(self).wf(),
        ensures
            final(self).wf(),
            final(self)@.endian == old(self)@.endian,
            final(self)@.atoms == with_tag_in(old(self)@.atoms, atom_type, tag),
            forall|t: u32|
                #[trigger] has_type(final(self)@.atoms, t) <==> has_type(old(self)@.atoms, t) || t
                    == atom_type,
    {
        proof {
            lemma_with_tag_types(self@.atoms, atom_type, tag);
        }
        self.set_tag_in(atom_type, tag);
    }

    /// Populates a model from the payload of a movie atom: each leaf atom
    /// found by walking into the container atoms adds its tags. An item-list
    /// entry adds the tag of the catalog that its type and value stand for, a
    /// movie header its typed fields to the movie header container, and any
    /// other atom its payload as binary data of its type. Later atoms
    /// replace earlier tags of the same identity.
    pub fn decode(data: &[u8]) -> (r: VideoMetadata)
        ensures
            decoded_from(data@, r@),
    {
        let mut spans: Vec<AtomSpan> = Vec::new();
        collect_leaves(data, 0, data.len(), false, &mut spans);
        assert(spans@ =~= leaves(data@, 0, data@.len() as int, false));
        let ghost ls = spans@;
        let ghost p = |x: VideoTag| from_some_leaf(data@, ls, x);
        let mut m = VideoMetadata::new();
        let mut i: usize = 0;
        while i < spans.len()
            invariant
                spans@ == ls,
                data@.len() <= usize::MAX,
                ls == leaves(data@, 0, data@.len() as int, false),
                i <= ls.len(),
                m.wf(),
                m@.endian == Endian::Big,
                forall|k: int|
                    0 <= k < i && contributes(data@, #[trigger] ls[k]) ==> has_type(
                        m@.atoms,
                        ls[k].atom_type,
                    ),
                forall|j: int|
                    0 <= j < m@.atoms.len() ==> has_leaf_type(
                        ls.take(i as int),
                        #[trigger] m@.atoms[j].atom_type,
                    ),
                p == (|x: VideoTag| from_some_leaf(data@, ls, x)),
                all_tags_satisfy(m@.atoms, p),
            decreases ls.len() - i,
        {
            let span = spans[i];
            proof {
                lemma_leaves_in_bounds(data@, 0, data@.len() as int, false);
            }
            let payload = copy_range(data, span.start, span.end);
            let ghost before = m@.atoms;
            let ghost pl = data@.subrange(span.start as int, span.end as int);
            if span.in_item_list {
                let value = item_value_of(payload.as_slice());
                let tag = VideoTag::from_item(span.atom_type, value);
                proof {
                    assert(tag_from_leaf(data@, ls[i as int], tag));
                    lemma_with_tag_in_tags(m@.atoms, span.atom_type, tag, p);
                }
                m.add_tag(span.atom_type, tag);
            } else if span.atom_type == MVHD {
                match decode_mvhd(payload.as_slice()) {
                    Some(h) => {
                        let t1 = VideoTag::CreationTime(h.creation_time);
                        proof {
                            assert(tag_from_leaf(data@, ls[i as int], t1));
                            lemma_with_tag_in_tags(m@.atoms, MVHD, t1, p);
                        }
                        m.add_tag(MVHD, t1);
                        let t2 = VideoTag::ModificationTime(h.modification_time);
                        proof {
                            assert(tag_from_leaf(data@, ls[i as int], t2));
                            lemma_with_tag_in_tags(m@.atoms, MVHD, t2, p);
                        }
                        m.add_tag(MVHD, t2);
                        let mut ts: Vec<u32> = Vec::new();
                        ts.push(h.timescale);
                        let t3 = VideoTag::Timescale(ts);
                        proof {
                            assert(tag_from_leaf(data@, ls[i as int], t3));
                            lemma_with_tag_in_tags(m@.atoms, MVHD, t3, p);
                        }
                        m.add_tag(MVHD, t3);
                        let mut dur: Vec<u64> = Vec::new();
                        dur.push(h.duration);
                        let t4 = VideoTag::Duration(dur);
                        proof {
                            assert(tag_from_leaf(data@, ls[i as int], t4));
                            lemma_with_tag_in_tags(m@.atoms, MVHD, t4, p);
                        }
                        m.add_tag(MVHD, t4);
                        let t5 = VideoTag::TransformMatrix(h.matrix);
                        proof {
                            assert(tag_from_leaf(data@, ls[i as int], t5));
                            lemma_with_tag_in_tags(m@.atoms, MVHD, t5, p);
                        }
                        m.add_tag(MVHD, t5);
                    },
                    None => {},
                }
            } else {
                let tag = VideoTag::UnknownVBINARY(payload, span.atom_type);
                proof {
                    assert(tag_from_leaf(data@, ls[i as int], tag));
                    lemma_with_tag_in_tags(m@.atoms, span.atom_type, tag, p);
                }
                m.add_tag(span.atom_type, tag);
            }
            proof {
                assert forall|j: int| 0 <= j < m@.atoms.len() implies has_leaf_type(
                    ls.take(i + 1),
                    #[trigger] m@.atoms[j].atom_type,
                ) by {
                    let t = m@.atoms[j].atom_type;
                    assert(has_type(m@.atoms, t));
                    if has_type(before, t) {
                        let jj = choose|jj: int| 0 <= jj < before.len() && before[jj].atom_type == t;
                        assert(has_leaf_type(ls.take(i as int), before[jj].atom_type));
                        let k = choose|k: int|
                            0 <= k < i && ls.take(i as int)[k].atom_type == t;
                        assert(ls.take(i + 1)[k] == ls[k]);
                    } else {
                        assert(t == span.atom_type);
                        assert(ls.take(i + 1)[i as int] == span);
                    }
                }
                assert forall|k: int|
                    0 <= k < i + 1 && contributes(data@, #[trigger] ls[k]) implies has_type(
                    m@.atoms,
                    ls[k].atom_type,
                ) by {
                    if k < i {
                        assert(has_type(before, ls[k].atom_type));
                    }
                }
            }
            i += 1;
        }
        assert(ls.take(i as int) =~= ls);
        m
    }

    /// The model read from the payload of a movie atom, ordered by priority;
    /// an empty model where the payload could not be had.
    pub fn general_decoding_wrapper(raw_pre_decode_general: Result<Vec<u8>, MovError>) -> (r:
        Result<VideoMetadata, MovError>)
        ensures
            r matches Ok(m) && m.wf() && (match raw_pre_decode_general {
                Ok(b) => exists|d: MetadataView|
                    decoded_from(b@, d) && m@.endian == d.endian && m@.atoms == priority_sorted(
                        d.atoms,
                    ),
                Err(_) => m@.endian == Endian::Big && m@.atoms.len() == 0,
            }),
    {
        match raw_pre_decode_general {
            Ok(bytes) => {
                let mut data = VideoMetadata::decode(bytes.as_slice());
                let ghost d = data@;
                data.sort_data();
                Ok(data)
            },
            Err(_) => Ok(VideoMetadata::new()),
        }
    }

    /// The container of type `atom_type`, created empty when there is none.
    pub fn get_atom_mut(&mut self, atom_type: u32) -> (r: &mut VideoAtomContainer)
        requires
            old(self).wf(),
        ensures
            ({
                let pre = if has_type(old(self)@.atoms, atom_type) {
                    old(self)@.atoms
                } else {
                    old(self)@.atoms.push(ContainerView { atom_type, size: 0, tags: Seq::empty() })
                };
                let i = index_of(pre, atom_type);
                &&& has_type(pre, atom_type)
                &&& (*r)@ == pre[i]
                &&& final(self)@.endian == old(self)@.endian
                &&& final(self)@.atoms == pre.update(i, (*final(r))@)
            }),
    {
        broadcast use lemma_views_update;

        self.create_atom(atom_type);
        proof {
            let pre = self@.atoms;
            if !has_type(old(self)@.atoms, atom_type) {
                assert(pre[pre.len() - 1].atom_type == atom_type);
            }
            assert(has_type(pre, atom_type));
        }
        let i = match self.position(atom_type) {
            Some(i) => i,
            None => 0,
        };
        &mut self.atoms[i]
    }

    /// Adds an empty container of type `atom_type` unless there is one.
    pub fn create_atom(&mut self, atom_type: u32)
        requires
            old(self).wf(),
        ensures
            final(self).wf(),
            final(self)@.endian == old(self)@.endian,
            has_type(old(self)@.atoms, atom_type) ==> final(self)@ == old(self)@,
            !has_type(old(self)@.atoms, atom_type) ==> final(self)@.atoms == old(self)@.atoms.push(
                ContainerView { atom_type, size: 0, tags: Seq::empty() },
            ),
    {
        if self.position(atom_type).is_some() {
            return;
        }
        let atom = VideoAtomContainer { atom_type, size: 0, tags: Vec::new() };
        self.atoms.push(atom);
        assert(self@.atoms =~= old(self)@.atoms.push(
            ContainerView { atom_type, size: 0, tags: Seq::empty() },
        ));
    }
}

} // verus!

//! The collision data of a map: planes, clip nodes, the hull-0 tree built
//! from the drawing nodes and leaves, and the brush models' headnodes.
//! Floating-point values are kept as the bits of 32-bit floats.
use vstd::prelude::*;
use crate::bsp::{Bsp, BspError, LUMP_CLIPNODES, LUMP_LEAFS, LUMP_MODELS, LUMP_NODES, LUMP_PLANES, MAX_MAP_HULLS, spec_lump};
use crate::bytes::{read_i16_at, read_i32_at, read_u32_at, u16_at, u32_at};

verus! {

/// A clip node: its plane and its two children (a node index, or a
/// contents value where negative).
#[derive(Debug, Copy, Clone, PartialEq, Eq)]
pub struct ClipNode {
    pub planenum: i32,
    pub children: [i32; 2],
}

/// A splitting plane: normal and distance as float bits, its axis type,
/// and which normal components are negative (bit 0 for x, 1 for y, 2 for z).
#[derive(Debug, Copy, Clone, PartialEq, Eq)]
pub struct Plane {
    pub normal: [u32; 3],
    pub dist: u32,
    pub plane_type: i32,
    pub signbits: u8,
}

/// A brush model: bounds and origin as float bits, the head node of each
/// hull, and its visible leaves and faces.
#[derive(Debug, Copy, Clone, PartialEq, Eq)]
pub struct BspModel {
    pub mins: [u32; 3],
    pub maxs: [u32; 3],
    pub origin: [u32; 3],
    pub headnode: [i32; 4],
    pub visleafs: i32,
    pub firstface: i32,
    pub numfaces: i32,
}

#[derive(Debug, Copy, Clone, PartialEq, Eq)]
struct BspNode {
    planenum: i32,
    children: [i32; 2],
}

#[derive(Debug, Clone)]
pub struct BspCollision {
    pub planes: Vec<Plane>,
    pub clipnodes: Vec<ClipNode>,
    pub hull0_clipnodes: Vec<ClipNode>,
    pub models: Vec<BspModel>,
}

/// One hull of a model: the clip nodes it walks from `firstclipnode`, the
/// planes, and the box that it offsets them by (float bits).
#[derive(Debug, Copy, Clone)]
pub struct Hull<'a> {
    pub clipnodes: &'a [ClipNode],
    pub planes: &'a [Plane],
    pub firstclipnode: i32,
    pub lastclipnode: i32,
    pub clip_mins: [u32; 3],
    pub clip_maxs: [u32; 3],
}

pub const DPLANE_SIZE: usize = 20;
pub const DCLIPNODE_SIZE: usize = 8;
pub const DNODE_SIZE: usize = 24;
pub const DLEAF_SIZE: usize = 28;
pub const DMODEL_SIZE: usize = 64;

/// Whether the float with bits `b` is below zero: the sign bit set, not a
/// zero and not a NaN.
pub open spec fn f32_bits_negative(b: u32) -> bool {
    0x8000_0001u32 <= b && b <= 0xff80_0000u32
}

pub open spec fn i16_at(d: Seq<u8>, at: int) -> i32 {
    (u16_at(d, at) as i16) as i32
}

pub open spec fn signbits_of(n: [u32; 3]) -> u8 {
    ((if f32_bits_negative(n[0]) { 1int } else { 0 })
        + (if f32_bits_negative(n[1]) { 2int } else { 0 })
        + (if f32_bits_negative(n[2]) { 4int } else { 0 })) as u8
}

pub open spec fn plane_rec(d: Seq<u8>, i: int) -> Plane {
    let o = 20 * i;
    let n = [u32_at(d, o), u32_at(d, o + 4), u32_at(d, o + 8)];
    Plane { normal: n, dist: u32_at(d, o + 12), plane_type: u32_at(d, o + 16) as i32, signbits: signbits_of(n) }
}

pub open spec fn clipnode_rec(d: Seq<u8>, i: int) -> ClipNode {
    ClipNode { planenum: u32_at(d, 8 * i) as i32, children: [i16_at(d, 8 * i + 4), i16_at(d, 8 * i + 6)] }
}

/// A drawing node as a clip node: its plane and children.
pub open spec fn node_rec(d: Seq<u8>, i: int) -> ClipNode {
    ClipNode { planenum: u32_at(d, 24 * i) as i32, children: [i16_at(d, 24 * i + 4), i16_at(d, 24 * i + 6)] }
}

pub open spec fn leaf_rec(d: Seq<u8>, i: int) -> i32 {
    u32_at(d, 28 * i) as i32
}

pub open spec fn model_rec(d: Seq<u8>, i: int) -> BspModel {
    let o = 64 * i;
    BspModel {
        mins: [u32_at(d, o), u32_at(d, o + 4), u32_at(d, o + 8)],
        maxs: [u32_at(d, o + 12), u32_at(d, o + 16), u32_at(d, o + 20)],
        origin: [u32_at(d, o + 24), u32_at(d, o + 28), u32_at(d, o + 32)],
        headnode: [u32_at(d, o + 36) as i32, u32_at(d, o + 40) as i32, u32_at(d, o + 44) as i32, u32_at(d, o + 48) as i32],
        visleafs: u32_at(d, o + 52) as i32,
        firstface: u32_at(d, o + 56) as i32,
        numfaces: u32_at(d, o + 60) as i32,
    }
}

/// A lump of `size`-byte records, refused unless its length is a whole
/// number of them.
pub open spec fn whole_records<T>(d: Seq<u8>, size: nat, rec: spec_fn(int) -> T) -> Result<Seq<T>, BspError> {
    if d.len() % size != 0 {
        Err(BspError::InvalidLump)
    } else {
        Ok(Seq::new(d.len() / size, rec))
    }
}

/// A hull-0 child: a node index stays; a leaf (negative) becomes that
/// leaf's contents, and a leaf past the list is an error.
pub open spec fn hull0_child(leafs: Seq<i32>, c: i32) -> Option<i32> {
    if c < 0 {
        let li = -c - 1;
        if li < leafs.len() { Some(leafs[li]) } else { None }
    } else {
        Some(c)
    }
}

/// The hull-0 clip nodes built from the drawing nodes and leaf contents.
pub open spec fn spec_hull0(nodes: Seq<ClipNode>, leafs: Seq<i32>) -> Result<Seq<ClipNode>, BspError> {
    if forall|i: int| #![trigger nodes[i]] 0 <= i < nodes.len()
        ==> hull0_child(leafs, nodes[i].children[0]) is Some && hull0_child(leafs, nodes[i].children[1]) is Some
    {
        Ok(Seq::new(nodes.len(), |i: int| ClipNode {
            planenum: nodes[i].planenum,
            children: [hull0_child(leafs, nodes[i].children[0])->0, hull0_child(leafs, nodes[i].children[1])->0],
        }))
    } else {
        Err(BspError::InvalidLump)
    }
}

pub struct CollisionView {
    pub planes: Seq<Plane>,
    pub clipnodes: Seq<ClipNode>,
    pub hull0_clipnodes: Seq<ClipNode>,
    pub models: Seq<BspModel>,
}

/// The collision data of a map, read lump by lump in the order planes,
/// clip nodes, nodes, leaves, models; the first failure is the answer.
pub open spec fn spec_collision(d: Seq<u8>, lumps: Seq<crate::bsp::Lump>) -> Result<CollisionView, BspError> {
    match spec_lump(d, lumps, LUMP_PLANES as int) {
        Err(e) => Err(e),
        Ok(pl) => match whole_records(pl, 20, |i: int| plane_rec(pl, i)) {
            Err(e) => Err(e),
            Ok(planes) => match spec_lump(d, lumps, LUMP_CLIPNODES as int) {
                Err(e) => Err(e),
                Ok(cl) => match whole_records(cl, 8, |i: int| clipnode_rec(cl, i)) {
                    Err(e) => Err(e),
                    Ok(clipnodes) => match spec_lump(d, lumps, LUMP_NODES as int) {
                        Err(e) => Err(e),
                        Ok(nl) => match whole_records(nl, 24, |i: int| node_rec(nl, i)) {
                            Err(e) => Err(e),
                            Ok(nodes) => match spec_lump(d, lumps, LUMP_LEAFS as int) {
                                Err(e) => Err(e),
                                Ok(ll) => match whole_records(ll, 28, |i: int| leaf_rec(ll, i)) {
                                    Err(e) => Err(e),
                                    Ok(leafs) => match spec_lump(d, lumps, LUMP_MODELS as int) {
                                        Err(e) => Err(e),
                                        Ok(ml) => match whole_records(ml, 64, |i: int| model_rec(ml, i)) {
                                            Err(e) => Err(e),
                                            Ok(models) => match spec_hull0(nodes, leafs) {
                                                Err(e) => Err(e),
                                                Ok(h0) => Ok(CollisionView { planes, clipnodes, hull0_clipnodes: h0, models }),
                                            },
                                        },
                                    },
                                },
                            },
                        },
                    },
                },
            },
        },
    }
}

fn f32_bits_is_negative(b: u32) -> (r: bool)
    ensures
        r == f32_bits_negative(b),
{
    0x8000_0001u32 <= b && b <= 0xff80_0000u32
}

fn parse_planes(data: &[u8]) -> (r: Result<Vec<Plane>, BspError>)
    ensures
        match whole_records(data@, 20, |i: int| plane_rec(data@, i)) {
            Ok(v) => r matches Ok(x) && x@ == v,
            Err(e) => r == Err::<Vec<Plane>, BspError>(e),
        },
{
    if data.len() % DPLANE_SIZE != 0 {
        return Err(BspError::InvalidLump);
    }
    let n = data.len() / DPLANE_SIZE;
    let mut out: Vec<Plane> = Vec::new();
    let mut i: usize = 0;
    while i < n
        invariant
            n == data@.len() / 20,
            data@.len() == data.len(),
            i <= n,
            out@ == Seq::new(i as nat, |k: int| plane_rec(data@, k)),
        decreases n - i,
    {
        assert(20 * i + 20 <= data@.len()) by (nonlinear_arith)
            requires
                i < n,
                n == data@.len() / 20,
        ;
        let o = 20 * i;
        let normal = [read_u32_at(data, o), read_u32_at(data, o + 4), read_u32_at(data, o + 8)];
        let mut signbits: u8 = 0;
        if f32_bits_is_negative(normal[0]) {
            signbits = signbits + 1;
        }
        if f32_bits_is_negative(normal[1]) {
            signbits = signbits + 2;
        }
        if f32_bits_is_negative(normal[2]) {
            signbits = signbits + 4;
        }
        out.push(Plane { normal, dist: read_u32_at(data, o + 12), plane_type: read_i32_at(data, o + 16), signbits });
        i = i + 1;
        assert(out@ =~= Seq::new(i as nat, |k: int| plane_rec(data@, k)));
    }
    Ok(out)
}

fn parse_clipnodes(data: &[u8]) -> (r: Result<Vec<ClipNode>, BspError>)
    ensures
        match whole_records(data@, 8, |i: int| clipnode_rec(data@, i)) {
            Ok(v) => r matches Ok(x) && x@ == v,
            Err(e) => r == Err::<Vec<ClipNode>, BspError>(e),
        },
{
    if data.len() % DCLIPNODE_SIZE != 0 {
        return Err(BspError::InvalidLump);
    }
    let n = data.len() / DCLIPNODE_SIZE;
    let mut out: Vec<ClipNode> = Vec::new();
    let mut i: usize = 0;
    while i < n
        invariant
            n == data@.len() / 8,
            data@.len() == data.len(),
            i <= n,
            out@ == Seq::new(i as nat, |k: int| clipnode_rec(data@, k)),
        decreases n - i,
    {
        assert(8 * i + 8 <= data@.len()) by (nonlinear_arith)
            requires
                i < n,
                n == data@.len() / 8,
        ;
        let o = 8 * i;
        let c0 = read_i16_at(data, o + 4) as i32;
        let c1 = read_i16_at(data, o + 6) as i32;
        out.push(ClipNode { planenum: read_i32_at(data, o), children: [c0, c1] });
        i = i + 1;
        assert(out@ =~= Seq::new(i as nat, |k: int| clipnode_rec(data@, k)));
    }
    Ok(out)
}

fn parse_nodes(data: &[u8]) -> (r: Result<Vec<BspNode>, BspError>)
    ensures
        match whole_records(data@, 24, |i: int| node_rec(data@, i)) {
            Ok(v) => r matches Ok(x) && x@.len() == v.len()
                && forall|k: int| 0 <= k < v.len() ==> #[trigger] x@[k].planenum == v[k].planenum
                    && x@[k].children == v[k].children,
            Err(e) => r matches Err(x) && x == e,
        },
{
    if data.len() % DNODE_SIZE != 0 {
        return Err(BspError::InvalidLump);
    }
    let n = data.len() / DNODE_SIZE;
    let mut out: Vec<BspNode> = Vec::new();
    let mut i: usize = 0;
    while i < n
        invariant
            n == data@.len() / 24,
            data@.len() == data.len(),
            i <= n,
            out@.len() == i,
            forall|k: int| 0 <= k < i ==> #[trigger] out@[k].planenum == node_rec(data@, k).planenum
                && out@[k].children == node_rec(data@, k).children,
        decreases n - i,
    {
        assert(24 * i + 24 <= data@.len()) by (nonlinear_arith)
            requires
                i < n,
                n == data@.len() / 24,
        ;
        let o = 24 * i;
        let c0 = read_i16_at(data, o + 4) as i32;
        let c1 = read_i16_at(data, o + 6) as i32;
        out.push(BspNode { planenum: read_i32_at(data, o), children: [c0, c1] });
        i = i + 1;
    }
    Ok(out)
}

fn parse_leaf_contents(data: &[u8]) -> (r: Result<Vec<i32>, BspError>)
    ensures
        match whole_records(data@, 28, |i: int| leaf_rec(data@, i)) {
            Ok(v) => r matches Ok(x) && x@ == v,
            Err(e) => r == Err::<Vec<i32>, BspError>(e),
        },
{
    if data.len() % DLEAF_SIZE != 0 {
        return Err(BspError::InvalidLump);
    }
    let n = data.len() / DLEAF_SIZE;
    let mut out: Vec<i32> = Vec::new();
    let mut i: usize = 0;
    while i < n
        invariant
            n == data@.len() / 28,
            data@.len() == data.len(),
            i <= n,
            out@ == Seq::new(i as nat, |k: int| leaf_rec(data@, k)),
        decreases n - i,
    {
        assert(28 * i + 28 <= data@.len()) by (nonlinear_arith)
            requires
                i < n,
                n == data@.len() / 28,
        ;
        out.push(read_i32_at(data, 28 * i));
        i = i + 1;
        assert(out@ =~= Seq::new(i as nat, |k: int| leaf_rec(data@, k)));
    }
    Ok(out)
}

fn parse_models(data: &[u8]) -> (r: Result<Vec<BspModel>, BspError>)
    ensures
        match whole_records(data@, 64, |i: int| model_rec(data@, i)) {
            Ok(v) => r matches Ok(x) && x@ == v,
            Err(e) => r == Err::<Vec<BspModel>, BspError>(e),
        },
{
    if data.len() % DMODEL_SIZE != 0 {
        return Err(BspError::InvalidLump);
    }
    let n = data.len() / DMODEL_SIZE;
    let mut out: Vec<BspModel> = Vec::new();
    let mut i: usize = 0;
    while i < n
        invariant
            n == data@.len() / 64,
            data@.len() == data.len(),
            i <= n,
            out@ == Seq::new(i as nat, |k: int| model_rec(data@, k)),
        decreases n - i,
    {
        assert(64 * i + 64 <= data@.len()) by (nonlinear_arith)
            requires
                i < n,
                n == data@.len() / 64,
        ;
        let o = 64 * i;
        out.push(BspModel {
            mins: [read_u32_at(data, o), read_u32_at(data, o + 4), read_u32_at(data, o + 8)],
            maxs: [read_u32_at(data, o + 12), read_u32_at(data, o + 16), read_u32_at(data, o + 20)],
            origin: [read_u32_at(data, o + 24), read_u32_at(data, o + 28), read_u32_at(data, o + 32)],
            headnode: [read_i32_at(data, o + 36), read_i32_at(data, o + 40), read_i32_at(data, o + 44), read_i32_at(data, o + 48)],
            visleafs: read_i32_at(data, o + 52),
            firstface: read_i32_at(data, o + 56),
            numfaces: read_i32_at(data, o + 60),
        });
        i = i + 1;
        assert(out@ =~= Seq::new(i as nat, |k: int| model_rec(data@, k)));
    }
    Ok(out)
}

/// The hull-0 tree: each drawing node keeps its plane, and a child that is
/// a leaf is replaced by that leaf's contents.
fn build_hull0_clipnodes(nodes: &[BspNode], leaf_contents: &[i32]) -> (r: Result<Vec<ClipNode>, BspError>)
    ensures
        match spec_hull0(node_views(nodes@), leaf_contents@) {
            Ok(v) => r matches Ok(x) && x@ == v,
            Err(e) => r == Err::<Vec<ClipNode>, BspError>(e),
        },
{
    let ghost nv = node_views(nodes@);
    let mut out: Vec<ClipNode> = Vec::new();
    let mut i: usize = 0;
    while i < nodes.len()
        invariant
            nv == node_views(nodes@),
            i <= nodes@.len(),
            out@.len() == i,
            forall|k: int| 0 <= k < i ==> hull0_child(leaf_contents@, #[trigger] nv[k].children[0]) is Some
                && hull0_child(leaf_contents@, nv[k].children[1]) is Some,
            forall|k: int| 0 <= k < i ==> #[trigger] out@[k] == (ClipNode {
                planenum: nv[k].planenum,
                children: [hull0_child(leaf_contents@, nv[k].children[0])->0, hull0_child(leaf_contents@, nv[k].children[1])->0],
            }),
        decreases nodes@.len() - i,
    {
        let node = nodes[i];
        let mut children: [i32; 2] = [0i32, 0i32];
        let mut j: usize = 0;
        while j < 2
            invariant
                j <= 2,
                node == nodes@[i as int],
                nv == node_views(nodes@),
                i < nodes@.len(),
                forall|m: int| 0 <= m < j ==> hull0_child(leaf_contents@, #[trigger] node.children[m]) == Some(children[m]),
            decreases 2 - j,
        {
            let child = node.children[j];
            let v = if child < 0 {
                let leaf_index = (-(child as i64) - 1) as usize;
                if leaf_index >= leaf_contents.len() {
                    proof {
                        assert(hull0_child(leaf_contents@, nv[i as int].children[j as int]) is None);
                    }
                    return Err(BspError::InvalidLump);
                }
                leaf_contents[leaf_index]
            } else {
                child
            };
            children.set(j, v);
            j = j + 1;
        }
        proof {
            assert(hull0_child(leaf_contents@, node.children[0]) == Some(children[0]));
            assert(hull0_child(leaf_contents@, node.children[1]) == Some(children[1]));
            let want = [hull0_child(leaf_contents@, nv[i as int].children[0])->0, hull0_child(leaf_contents@, nv[i as int].children[1])->0];
            assert(children =~= want);
        }
        out.push(ClipNode { planenum: node.planenum, children });
        i = i + 1;
    }
    assert(out@ =~= Seq::new(nv.len(), |k: int| ClipNode {
        planenum: nv[k].planenum,
        children: [hull0_child(leaf_contents@, nv[k].children[0])->0, hull0_child(leaf_contents@, nv[k].children[1])->0],
    }));
    Ok(out)
}

spec fn node_views(nodes: Seq<BspNode>) -> Seq<ClipNode> {
    Seq::new(nodes.len(), |i: int| ClipNode { planenum: nodes[i].planenum, children: nodes[i].children })
}

/// The box that hull 1 (player size) and hull 2 (large monsters) offset the
/// planes by, as float bits: (-16, -16, -24)..(16, 16, 32) and
/// (-32, -32, -24)..(32, 32, 64); hull 0 is a point.
pub open spec fn hull_box(hull_index: int) -> ([u32; 3], [u32; 3]) {
    if hull_index == 1 {
        ([0xc180_0000u32, 0xc180_0000u32, 0xc1c0_0000u32], [0x4180_0000u32, 0x4180_0000u32, 0x4200_0000u32])
    } else if hull_index == 2 {
        ([0xc200_0000u32, 0xc200_0000u32, 0xc1c0_0000u32], [0x4200_0000u32, 0x4200_0000u32, 0x4280_0000u32])
    } else {
        ([0u32, 0u32, 0u32], [0u32, 0u32, 0u32])
    }
}

fn hull_box_exec(hull_index: usize) -> (r: ([u32; 3], [u32; 3]))
    ensures
        r == hull_box(hull_index as int),
{
    if hull_index == 1 {
        ([0xc180_0000u32, 0xc180_0000u32, 0xc1c0_0000u32], [0x4180_0000u32, 0x4180_0000u32, 0x4200_0000u32])
    } else if hull_index == 2 {
        ([0xc200_0000u32, 0xc200_0000u32, 0xc1c0_0000u32], [0x4200_0000u32, 0x4200_0000u32, 0x4280_0000u32])
    } else {
        ([0u32, 0u32, 0u32], [0u32, 0u32, 0u32])
    }
}

/// Where hull `hull_index` of model `model_index` starts and ends in its
/// clip-node list (the hull-0 list for hull 0, the clip nodes for hulls 1
/// and 2): none for a missing model, another hull, an empty list, or a head
/// node outside the list.
pub open spec fn spec_hull_span(v: CollisionView, model_index: int, hull_index: int) -> Option<(i32, i32)> {
    if model_index < 0 || model_index >= v.models.len() || hull_index < 0 || hull_index > 2 {
        None
    } else {
        let nodes = if hull_index == 0 { v.hull0_clipnodes } else { v.clipnodes };
        let first = v.models[model_index].headnode[hull_index];
        let last = (nodes.len() as i32) - 1;
        if nodes.len() == 0 || first < 0 || first > last {
            None
        } else {
            Some((first, last as i32))
        }
    }
}

impl BspCollision {
    /// Hull `hull_index` of model `model_index`, as `spec_hull_span` says.
    pub fn hull(&self, model_index: usize, hull_index: usize) -> (r: Option<Hull<'_>>)
        ensures
            match spec_hull_span(self.view(), model_index as int, hull_index as int) {
                Some((first, last)) => r matches Some(h)
                    && h.clipnodes@ == (if hull_index == 0 { self.hull0_clipnodes@ } else { self.clipnodes@ })
                    && h.planes@ == self.planes@
                    && h.firstclipnode == first
                    && h.lastclipnode == last
                    && (h.clip_mins, h.clip_maxs) == hull_box(hull_index as int),
                None => r is None,
            },
    {
        if model_index >= self.models.len() || hull_index >= MAX_MAP_HULLS || hull_index > 2 {
            return None;
        }
        let nodes: &[ClipNode] = if hull_index == 0 { self.hull0_clipnodes.as_slice() } else { self.clipnodes.as_slice() };
        if nodes.len() == 0 {
            return None;
        }
        let first = self.models[model_index].headnode[hull_index];
        let last: i64 = (nodes.len() as i32) as i64 - 1;
        if first < 0 || first as i64 > last {
            return None;
        }
        let (clip_mins, clip_maxs) = hull_box_exec(hull_index);
        Some(Hull {
            clipnodes: nodes,
            planes: self.planes.as_slice(),
            firstclipnode: first,
            lastclipnode: last as i32,
            clip_mins,
            clip_maxs,
        })
    }

    pub open spec fn view(&self) -> CollisionView {
        CollisionView {
            planes: self.planes@,
            clipnodes: self.clipnodes@,
            hull0_clipnodes: self.hull0_clipnodes@,
            models: self.models@,
        }
    }

    /// Reads the collision lumps of a map.
    pub fn from_bsp(bsp: &Bsp) -> (r: Result<Self, BspError>)
        ensures
            match spec_collision(bsp.spec_data(), bsp.spec_lumps()) {
                Ok(v) => r matches Ok(x) && x.view() == v,
                Err(e) => r matches Err(x) && x == e,
            },
    {
        let planes = parse_planes(bsp.lump_slice(LUMP_PLANES)?)?;
        let clipnodes = parse_clipnodes(bsp.lump_slice(LUMP_CLIPNODES)?)?;
        let nodes = parse_nodes(bsp.lump_slice(LUMP_NODES)?)?;
        let leaf_contents = parse_leaf_contents(bsp.lump_slice(LUMP_LEAFS)?)?;
        let models = parse_models(bsp.lump_slice(LUMP_MODELS)?)?;
        proof {
            let nl = spec_lump(bsp.spec_data(), bsp.spec_lumps(), LUMP_NODES as int)->Ok_0;
            assert(node_views(nodes@) =~= Seq::new(nl.len() / 24, |i: int| node_rec(nl, i)));
        }
        let hull0_clipnodes = build_hull0_clipnodes(&nodes, &leaf_contents)?;
        Ok(BspCollision { planes, clipnodes, hull0_clipnodes, models })
    }
}

} // verus!

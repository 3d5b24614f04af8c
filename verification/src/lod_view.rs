//! Rings of coarse chunks around the detailed ones.
//!
//! Level `L` covers the distances `[inner, outer]` from the camera, with
//! `outer = vd * 2^L` and `inner = vd * 2^(L-1) - 32 * 2^L` for a view
//! distance of `vd` blocks. A level-`L` chunk is 32 cells of `2^L` blocks
//! along each edge.

use crate::blocks::BlockRegistry;
use crate::chunk::{BlockId, Chunk};
use crate::geometry::{floor_div, IVec3, UVec3};
use crate::mesh::{beyond, build_chunk_mesh, reachable, unlit, Face, MeshBuild, MeshSource, Quad};
use crate::lists::{
    lemma_concat_contains, lemma_filter_contains, lemma_filter_empty, lemma_filter_push,
};
use crate::nearest::{first_of, is_least, keyed, lemma_first_is_least, take_first};
use crate::packed::{LodPos, PackedMap, PackedSet};
use vstd::prelude::*;

verus! {

/// The coarsest level of detail.
pub const MAX_LOD: u8 = 5;

/// Positions requested per frame, all levels together.
pub const MAX_LOD_CHUNK_REQUESTS_PER_FRAME: usize = 128;

/// Two to the power of a level.
pub open spec fn scale(level: int) -> int
    decreases level,
{
    if level <= 0 {
        1
    } else {
        2 * scale(level - 1)
    }
}

/// Edge length of a level's cells, in blocks.
pub fn cell_size(level: u8) -> (size: i32)
    requires
        level <= MAX_LOD,
    ensures
        size == scale(level as int),
        1 <= size <= 32,
{
    let mut size: i32 = 1;
    let mut n: u8 = 0;
    while n < level
        invariant
            n <= level <= 5,
            size == scale(n as int),
            1 <= size,
            n == 0 ==> size == 1,
            n == 1 ==> size == 2,
            n == 2 ==> size == 4,
            n == 3 ==> size == 8,
            n == 4 ==> size == 16,
            n == 5 ==> size == 32,
        decreases level - n,
    {
        size = size * 2;
        n += 1;
    }
    size
}

/// Edge length of a level's chunks, in blocks.
pub open spec fn span(level: int) -> int {
    32 * scale(level)
}

/// Edge length of a level's chunks, in blocks.
pub fn chunk_span(level: u8) -> (blocks: i32)
    requires
        level <= MAX_LOD,
    ensures
        blocks == span(level as int),
        32 <= blocks <= 1024,
{
    32 * cell_size(level)
}

/// Whether a level's band can be computed: its outer bound fits.
pub open spec fn band_fits(level: int, vd_blocks: int) -> bool {
    0 <= vd_blocks && outer(level, vd_blocks) <= i32::MAX
}

/// Whether the bands of all levels can be computed: the outer bound of the
/// outermost one fits, which is 32 times the view distance.
pub open spec fn view_distance_ok(vd_blocks: i32) -> bool {
    0 <= vd_blocks && vd_blocks * 32 <= i32::MAX
}

/// The nearest distance that a level covers, in blocks.
pub open spec fn inner(level: int, vd_blocks: int) -> int {
    vd_blocks * scale(level - 1) - span(level)
}

/// The farthest distance that a level covers, in blocks.
pub open spec fn outer(level: int, vd_blocks: int) -> int {
    vd_blocks * scale(level)
}

/// The scales of all levels.
pub proof fn lemma_scales()
    ensures
        scale(0) == 1,
        scale(1) == 2,
        scale(2) == 4,
        scale(3) == 8,
        scale(4) == 16,
        scale(5) == 32,
{
    assert(scale(1) == 2 * scale(0));
    assert(scale(2) == 2 * scale(1));
    assert(scale(3) == 2 * scale(2));
    assert(scale(4) == 2 * scale(3));
    assert(scale(5) == 2 * scale(4));
}

/// A band that fits is inside numbers that can be computed with.
proof fn lemma_band(level: int, vd_blocks: int)
    requires
        1 <= level <= 5,
        band_fits(level, vd_blocks),
    ensures
        0 <= vd_blocks * scale(level - 1) <= vd_blocks * scale(level) <= i32::MAX,
        64 <= span(level) <= 1024,
{
    lemma_scales();
    let s = scale(level - 1);
    assert(scale(level) == 2 * s);
    assert(0 <= vd_blocks * s <= vd_blocks * (2 * s)) by (nonlinear_arith)
        requires
            0 <= vd_blocks,
            1 <= s,
    ;
}

/// Where the outermost band fits, every band does.
pub proof fn lemma_bands_fit(level: int, vd_blocks: int)
    requires
        0 <= level <= 5,
        0 <= vd_blocks,
        vd_blocks * 32 <= i32::MAX,
    ensures
        band_fits(level, vd_blocks),
        vd_blocks <= 0x03ff_ffff,
{
    lemma_scales();
    let s = scale(level);
    assert(1 <= s <= 32);
    assert(vd_blocks * s <= vd_blocks * 32) by (nonlinear_arith)
        requires
            0 <= vd_blocks,
            s <= 32,
    ;
}

/// Inner bound of a level's band, in blocks.
pub fn inner_bound(level: u8, vd_blocks: i32) -> (d: i32)
    requires
        1 <= level <= MAX_LOD,
        band_fits(level as int, vd_blocks as int),
    ensures
        d == inner(level as int, vd_blocks as int),
        -1024 <= d,
{
    let s: i32 = cell_size(level - 1);
    proof {
        lemma_band(level as int, vd_blocks as int);
    }
    vd_blocks * s - chunk_span(level)
}

/// Outer bound of a level's band, in blocks.
pub fn outer_bound(level: u8, vd_blocks: i32) -> (d: i32)
    requires
        level <= MAX_LOD,
        band_fits(level as int, vd_blocks as int),
    ensures
        d == outer(level as int, vd_blocks as int),
        0 <= d,
{
    let s: i32 = cell_size(level);
    assert(0 <= vd_blocks * s) by (nonlinear_arith)
        requires
            0 <= vd_blocks,
            0 <= s,
    ;
    vd_blocks * s
}

/// Consecutive bands overlap by exactly one chunk of the coarser level.
pub proof fn law_bands_overlap(level: int, vd_blocks: int)
    requires
        1 <= level,
    ensures
        outer(level - 1, vd_blocks) - inner(level, vd_blocks) == span(level),
{
}

/// Every distance from the view distance to the horizon lies in some band.
pub proof fn law_bands_cover(vd_blocks: int, distance: int)
    requires
        0 <= vd_blocks,
        vd_blocks <= distance <= outer(5, vd_blocks),
    ensures
        exists|level: int|
            1 <= level <= 5 && #[trigger] inner(level, vd_blocks) <= distance <= outer(level, vd_blocks),
{
    lemma_scales();
    assert(vd_blocks * 1 == vd_blocks);
    if distance <= outer(1, vd_blocks) {
        assert(inner(1, vd_blocks) <= distance);
    } else if distance <= outer(2, vd_blocks) {
        assert(inner(2, vd_blocks) <= distance);
    } else if distance <= outer(3, vd_blocks) {
        assert(inner(3, vd_blocks) <= distance);
    } else if distance <= outer(4, vd_blocks) {
        assert(inner(4, vd_blocks) <= distance);
    } else {
        assert(inner(5, vd_blocks) <= distance);
    }
}

/// The horizontal distance from the camera to the centre of a coarse chunk,
/// in blocks.
#[derive(Clone, Copy, Debug, PartialEq, Eq, Structural)]
pub struct LodDistance {
    /// Rounded down.
    pub floor: i32,
    /// Rounded up.
    pub ceil: i32,
    /// A number that orders distances as they are.
    pub order: u32,
}

/// Number of chunk layers of each level, at the level's index.
pub type LodHeights = [i32; 6];

/// Whether a chunk layer exists on a level.
pub open spec fn layer_exists(at: LodPos, heights: LodHeights) -> bool {
    1 <= at.level <= 5 && 0 <= at.pos.y < heights@[at.level as int]
}

/// Whether the camera wants a coarse chunk: its centre lies in its level's
/// band.
pub open spec fn wanted(at: LodPos, d: LodDistance, vd_blocks: int, heights: LodHeights) -> bool {
    &&& layer_exists(at, heights)
    &&& inner(at.level as int, vd_blocks) <= d.floor
    &&& d.ceil <= outer(at.level as int, vd_blocks)
}

/// Whether a coarse chunk is near enough to its band to be kept: the band
/// widened by one chunk on both sides.
pub open spec fn kept(at: LodPos, d: LodDistance, vd_blocks: int, heights: LodHeights) -> bool {
    &&& layer_exists(at, heights)
    &&& 0 <= d.floor
    &&& inner(at.level as int, vd_blocks) - span(at.level as int) <= d.floor
    &&& d.ceil <= outer(at.level as int, vd_blocks) + span(at.level as int)
}

/// Whether the camera wants a coarse chunk.
pub fn is_wanted(at: LodPos, d: LodDistance, vd_blocks: i32, heights: &LodHeights) -> (b: bool)
    requires
        1 <= at.level <= MAX_LOD ==> band_fits(at.level as int, vd_blocks as int),
    ensures
        b == wanted(at, d, vd_blocks as int, *heights),
{
    if at.level < 1 || at.level > MAX_LOD {
        return false;
    }
    if at.pos.y < 0 || at.pos.y >= heights[at.level as usize] {
        return false;
    }
    inner_bound(at.level, vd_blocks) <= d.floor && d.ceil <= outer_bound(at.level, vd_blocks)
}

/// Whether a coarse chunk is near enough to its band to be kept.
pub fn is_wanted_with_hysteresis(at: LodPos, d: LodDistance, vd_blocks: i32, heights: &LodHeights) -> (b:
    bool)
    requires
        1 <= at.level <= MAX_LOD ==> band_fits(at.level as int, vd_blocks as int),
    ensures
        b == kept(at, d, vd_blocks as int, *heights),
{
    if at.level < 1 || at.level > MAX_LOD {
        return false;
    }
    if at.pos.y < 0 || at.pos.y >= heights[at.level as usize] {
        return false;
    }
    let margin: i64 = chunk_span(at.level) as i64;
    let nearest: i64 = inner_bound(at.level, vd_blocks) as i64 - margin;
    let farthest: i64 = outer_bound(at.level, vd_blocks) as i64 + margin;
    0 <= d.floor && nearest <= d.floor as i64 && d.ceil as i64 <= farthest
}

/// What was wanted is kept while the camera moves by no more than one chunk
/// of its level: the distance, `before` when it was wanted, has changed by no
/// more than that. So a camera that stands still or trembles removes nothing
/// that it wants.
pub proof fn law_wanted_is_kept(
    at: LodPos,
    before: LodDistance,
    now: LodDistance,
    vd_blocks: int,
    heights: LodHeights,
)
    requires
        wanted(at, before, vd_blocks, heights),
        0 <= now.floor,
        now.floor >= before.floor - span(at.level as int),
        now.ceil <= before.ceil + span(at.level as int),
    ensures
        kept(at, now, vd_blocks, heights),
{
}

/// Whether a function measures distances: it answers for every position, and
/// always the same.
pub open spec fn measures<F: Fn(LodPos) -> LodDistance>(f: F) -> bool {
    &&& forall|p: LodPos| call_requires(f, (p,))
    &&& forall|p: LodPos, a: LodDistance, b: LodDistance|
        call_ensures(f, (p,), a) && call_ensures(f, (p,), b) ==> a == b
}

/// What a measuring function answers.
pub open spec fn distance_by<F: Fn(LodPos) -> LodDistance>(f: F, p: LodPos) -> LodDistance {
    choose|d: LodDistance| call_ensures(f, (p,), d)
}

/// The order of distances as a key.
pub open spec fn order_by<F: Fn(LodPos) -> LodDistance>(f: F) -> spec_fn(LodPos) -> int {
    |p: LodPos| distance_by(f, p).order as int
}

/// How many chunks around the camera's are looked at, on every level: one
/// more than the view distance spans.
pub open spec fn radius(vd_blocks: int) -> int {
    (vd_blocks + 31) / 32 + 1
}

/// The first `n` chunks of a column.
pub open spec fn column(level: int, x: int, z: int, n: int) -> Seq<LodPos> {
    Seq::new(
        if n > 0 {
            n as nat
        } else {
            0
        },
        |y: int|
            LodPos { level: level as u8, pos: IVec3 { x: x as i32, y: y as i32, z: z as i32 } },
    )
}

/// The columns from `(x, z)` on along z, `n` of them.
pub open spec fn columns(level: int, x: int, z: int, n: int, height: int) -> Seq<LodPos>
    decreases n,
{
    if n <= 0 {
        Seq::empty()
    } else {
        columns(level, x, z, n - 1, height) + column(level, x, z + n - 1, height)
    }
}

/// The rows of `side` columns from `(x, z)` on along x, `n` of them.
pub open spec fn rows(level: int, x: int, z: int, n: int, side: int, height: int) -> Seq<LodPos>
    decreases n,
{
    if n <= 0 {
        Seq::empty()
    } else {
        rows(level, x, z, n - 1, side, height) + columns(level, x + n - 1, z, side, height)
    }
}

/// The chunks of one level around the camera.
pub open spec fn around(level: int, cam_x: int, cam_z: int, vd_blocks: int, heights: LodHeights) -> Seq<
    LodPos,
> {
    let r = radius(vd_blocks);
    rows(
        level,
        cam_x / span(level) - r,
        cam_z / span(level) - r,
        2 * r + 1,
        2 * r + 1,
        heights@[level] as int,
    )
}

/// The chunks around the camera on the first `n` levels.
pub open spec fn candidates(
    n: int,
    cam_x: int,
    cam_z: int,
    vd_blocks: int,
    heights: LodHeights,
) -> Seq<LodPos>
    decreases n,
{
    if n <= 0 {
        Seq::empty()
    } else {
        candidates(n - 1, cam_x, cam_z, vd_blocks, heights) + around(
            n,
            cam_x,
            cam_z,
            vd_blocks,
            heights,
        )
    }
}

/// The chunks that the camera wants among the listed ones.
pub open spec fn wanted_among<F: Fn(LodPos) -> LodDistance>(
    list: Seq<LodPos>,
    distance: F,
    vd_blocks: int,
    heights: LodHeights,
) -> Seq<LodPos> {
    list.filter(|p: LodPos| wanted(p, distance_by(distance, p), vd_blocks, heights))
}

/// Every coarse chunk that the camera wants, on all levels. `cam_x` and
/// `cam_z` are the block that the camera is in.
pub fn wanted_lod_chunks<F: Fn(LodPos) -> LodDistance + Copy>(
    cam_x: i32,
    cam_z: i32,
    distance: F,
    vd_blocks: i32,
    heights: &LodHeights,
) -> (result: Vec<LodPos>)
    requires
        measures(distance),
        view_distance_ok(vd_blocks),
    ensures
        result@ == wanted_among(
            candidates(5, cam_x as int, cam_z as int, vd_blocks as int, *heights),
            distance,
            vd_blocks as int,
            *heights,
        ),
{
    proof {
        lemma_bands_fit(5, vd_blocks as int);
    }
    let ghost pred = |p: LodPos|
        wanted(p, distance_by(distance, p), vd_blocks as int, *heights);
    let mut result: Vec<LodPos> = Vec::new();
    let r: i32 = (vd_blocks + 31) / 32 + 1;
    let side: i32 = 2 * r + 1;
    let mut level: u8 = 1;
    proof {
        let none = candidates(0, cam_x as int, cam_z as int, vd_blocks as int, *heights);
        lemma_filter_empty(none, pred);
    }
    while level <= MAX_LOD
        invariant
            1 <= level <= 6,
            measures(distance),
            view_distance_ok(vd_blocks),
            vd_blocks <= 0x03ff_ffff,
            r == radius(vd_blocks as int),
            side == 2 * r + 1,
            pred == (|p: LodPos| wanted(p, distance_by(distance, p), vd_blocks as int, *heights)),
            result@ == candidates(
                level - 1,
                cam_x as int,
                cam_z as int,
                vd_blocks as int,
                *heights,
            ).filter(pred),
        decreases 6 - level,
    {
        let blocks: i32 = chunk_span(level);
        let cx: i32 = floor_div(cam_x, blocks);
        let cz: i32 = floor_div(cam_z, blocks);
        proof {
            lemma_quotient_bound(cam_x as int, blocks as int);
            lemma_quotient_bound(cam_z as int, blocks as int);
        }
        let x0: i32 = cx - r;
        let z0: i32 = cz - r;
        let height: i32 = heights[level as usize];
        let ghost before = candidates(
            level - 1,
            cam_x as int,
            cam_z as int,
            vd_blocks as int,
            *heights,
        );
        let mut i: i32 = 0;
        assert(before + rows(level as int, x0 as int, z0 as int, 0, side as int, height as int)
            =~= before);
        while i < side
            invariant
                1 <= level <= 5,
                measures(distance),
                view_distance_ok(vd_blocks),
                vd_blocks <= 0x03ff_ffff,
                pred == (|p: LodPos|
                    wanted(p, distance_by(distance, p), vd_blocks as int, *heights)),
                r == radius(vd_blocks as int),
                side == 2 * r + 1,
                0 <= i <= side,
                -0x0500_0000 <= x0 <= 0x0500_0000,
                -0x0500_0000 <= z0 <= 0x0500_0000,
                result@ == (before + rows(
                    level as int,
                    x0 as int,
                    z0 as int,
                    i as int,
                    side as int,
                    height as int,
                )).filter(pred),
            decreases side - i,
        {
            let ghost done = before + rows(
                level as int,
                x0 as int,
                z0 as int,
                i as int,
                side as int,
                height as int,
            );
            let x: i32 = x0 + i;
            let mut j: i32 = 0;
            assert(done + columns(level as int, x as int, z0 as int, 0, height as int) =~= done);
            while j < side
                invariant
                    1 <= level <= 5,
                    measures(distance),
                    view_distance_ok(vd_blocks),
                    vd_blocks <= 0x03ff_ffff,
                    pred == (|p: LodPos|
                        wanted(p, distance_by(distance, p), vd_blocks as int, *heights)),
                    r == radius(vd_blocks as int),
                    side == 2 * r + 1,
                    0 <= j <= side,
                    -0x0500_0000 <= z0 <= 0x0500_0000,
                    result@ == (done + columns(
                        level as int,
                        x as int,
                        z0 as int,
                        j as int,
                        height as int,
                    )).filter(pred),
                decreases side - j,
            {
                let ghost stacked = done + columns(
                    level as int,
                    x as int,
                    z0 as int,
                    j as int,
                    height as int,
                );
                let z: i32 = z0 + j;
                let mut y: i32 = 0;
                assert(stacked + column(level as int, x as int, z as int, 0) =~= stacked);
                while y < height
                    invariant
                        1 <= level <= 5,
                        measures(distance),
                        view_distance_ok(vd_blocks),
                        vd_blocks <= 0x03ff_ffff,
                        pred == (|p: LodPos|
                            wanted(p, distance_by(distance, p), vd_blocks as int, *heights)),
                        0 <= y,
                        y <= height || y == 0,
                        result@ == (stacked + column(
                            level as int,
                            x as int,
                            z as int,
                            y as int,
                        )).filter(pred),
                    decreases height - y,
                {
                    let at = LodPos { level, pos: IVec3 { x, y, z } };
                    let d = distance(at);
                    assert(d == distance_by(distance, at));
                    let ghost listed = stacked + column(
                        level as int,
                        x as int,
                        z as int,
                        y as int,
                    );
                    assert(stacked + column(level as int, x as int, z as int, y + 1)
                        =~= listed.push(at));
                    proof {
                        lemma_filter_push(listed, at, pred);
                        lemma_bands_fit(level as int, vd_blocks as int);
                    }
                    if is_wanted(at, d, vd_blocks, heights) {
                        result.push(at);
                    }
                    y += 1;
                }
                assert(column(level as int, x as int, z as int, y as int) =~= column(
                    level as int,
                    x as int,
                    z as int,
                    height as int,
                ));
                assert(stacked + column(level as int, x as int, z as int, height as int) =~= done
                    + columns(level as int, x as int, z0 as int, j + 1, height as int));
                j += 1;
            }
            assert(done + columns(level as int, x as int, z0 as int, side as int, height as int)
                =~= before + rows(
                level as int,
                x0 as int,
                z0 as int,
                i + 1,
                side as int,
                height as int,
            ));
            i += 1;
        }
        level += 1;
    }
    result
}

proof fn lemma_quotient_bound(v: int, d: int)
    requires
        i32::MIN <= v <= i32::MAX,
        d >= 32,
    ensures
        -0x0400_0000 <= v / d <= 0x0400_0000,
{
    assert(-0x0400_0000 <= v / d <= 0x0400_0000) by (nonlinear_arith)
        requires
            -0x8000_0000 <= v <= 0x7fff_ffff,
            d >= 32,
    ;
}

proof fn lemma_column(level: int, x: int, z: int, n: int)
    requires
        1 <= level <= 5,
        i32::MIN <= x <= i32::MAX,
        i32::MIN <= z <= i32::MAX,
        n <= i32::MAX,
    ensures
        column(level, x, z, n).no_duplicates(),
        forall|p: LodPos| #[trigger]
            column(level, x, z, n).contains(p) <==> p.level == level && p.pos.x == x && p.pos.z == z
                && 0 <= p.pos.y < n,
{
    let c = column(level, x, z, n);
    assert forall|p: LodPos| #[trigger] c.contains(p) <==> p.level == level && p.pos.x == x && p.pos.z
        == z && 0 <= p.pos.y < n by {
        if p.level == level && p.pos.x == x && p.pos.z == z && 0 <= p.pos.y < n {
            assert(c[p.pos.y as int] == p);
        }
    }
    assert forall|i: int, j: int| 0 <= i < j < c.len() implies c[i] != c[j] by {
        assert(c[i].pos.y == i && c[j].pos.y == j);
    }
}

proof fn lemma_columns(level: int, x: int, z: int, n: int, height: int)
    requires
        1 <= level <= 5,
        0 <= n,
        i32::MIN <= x <= i32::MAX,
        i32::MIN <= z,
        z + n <= i32::MAX,
        height <= i32::MAX,
    ensures
        columns(level, x, z, n, height).no_duplicates(),
        forall|p: LodPos| #[trigger]
            columns(level, x, z, n, height).contains(p) <==> p.level == level && p.pos.x == x && z
                <= p.pos.z < z + n && 0 <= p.pos.y < height,
    decreases n,
{
    if n > 0 {
        lemma_columns(level, x, z, n - 1, height);
        lemma_column(level, x, z + n - 1, height);
        lemma_concat_contains(
            columns(level, x, z, n - 1, height),
            column(level, x, z + n - 1, height),
        );
    }
}

proof fn lemma_rows(level: int, x: int, z: int, n: int, side: int, height: int)
    requires
        1 <= level <= 5,
        0 <= n,
        0 <= side,
        i32::MIN <= x,
        x + n <= i32::MAX,
        i32::MIN <= z,
        z + side <= i32::MAX,
        height <= i32::MAX,
    ensures
        rows(level, x, z, n, side, height).no_duplicates(),
        forall|p: LodPos| #[trigger]
            rows(level, x, z, n, side, height).contains(p) <==> p.level == level && x <= p.pos.x < x
                + n && z <= p.pos.z < z + side && 0 <= p.pos.y < height,
    decreases n,
{
    if n > 0 {
        lemma_rows(level, x, z, n - 1, side, height);
        lemma_columns(level, x + n - 1, z, side, height);
        lemma_concat_contains(
            rows(level, x, z, n - 1, side, height),
            columns(level, x + n - 1, z, side, height),
        );
    }
}

/// Whether a position is near enough to the camera to be looked at.
pub open spec fn looked_at(
    p: LodPos,
    cam_x: int,
    cam_z: int,
    vd_blocks: int,
    heights: LodHeights,
) -> bool {
    let r = radius(vd_blocks);
    let cx = cam_x / span(p.level as int);
    let cz = cam_z / span(p.level as int);
    &&& layer_exists(p, heights)
    &&& cx - r <= p.pos.x <= cx + r
    &&& cz - r <= p.pos.z <= cz + r
}

proof fn lemma_candidates(n: int, cam_x: i32, cam_z: i32, vd_blocks: i32, heights: LodHeights)
    requires
        0 <= n <= 5,
        view_distance_ok(vd_blocks),
    ensures
        candidates(n, cam_x as int, cam_z as int, vd_blocks as int, heights).no_duplicates(),
        forall|p: LodPos| #[trigger]
            candidates(n, cam_x as int, cam_z as int, vd_blocks as int, heights).contains(p) <==> looked_at(
                p,
                cam_x as int,
                cam_z as int,
                vd_blocks as int,
                heights,
            ) && p.level <= n,
    decreases n,
{
    if n > 0 {
        lemma_scales();
        lemma_quotient_bound(cam_x as int, span(n));
        lemma_quotient_bound(cam_z as int, span(n));
        let r = radius(vd_blocks as int);
        lemma_candidates(n - 1, cam_x, cam_z, vd_blocks, heights);
        lemma_rows(
            n,
            cam_x as int / span(n) - r,
            cam_z as int / span(n) - r,
            2 * r + 1,
            2 * r + 1,
            heights@[n] as int,
        );
        lemma_concat_contains(
            candidates(n - 1, cam_x as int, cam_z as int, vd_blocks as int, heights),
            around(n, cam_x as int, cam_z as int, vd_blocks as int, heights),
        );
    }
}

/// Whether a distance is no shorter than the way along either axis from the
/// camera, which is somewhere in its block, to the centre of a chunk.
pub open spec fn reaches(at: LodPos, d: LodDistance, cam_x: int, cam_z: int) -> bool {
    let size = span(at.level as int);
    let dx = (2 * at.pos.x + 1) * size - 2 * cam_x;
    let dz = (2 * at.pos.z + 1) * size - 2 * cam_z;
    &&& -2 * d.ceil - 2 <= dx <= 2 * d.ceil + 2
    &&& -2 * d.ceil - 2 <= dz <= 2 * d.ceil + 2
}

/// No chunk that the camera wants is missed: where the measured distance is
/// no shorter than the way along either axis, a wanted chunk is among the
/// candidates.
pub proof fn law_no_wanted_chunk_is_missed(
    at: LodPos,
    d: LodDistance,
    cam_x: i32,
    cam_z: i32,
    vd_blocks: i32,
    heights: LodHeights,
)
    requires
        view_distance_ok(vd_blocks),
        wanted(at, d, vd_blocks as int, heights),
        reaches(at, d, cam_x as int, cam_z as int),
    ensures
        candidates(5, cam_x as int, cam_z as int, vd_blocks as int, heights).contains(at),
{
    lemma_scales();
    lemma_candidates(5, cam_x, cam_z, vd_blocks, heights);
    let l = at.level as int;
    assert(l == 1 || l == 2 || l == 3 || l == 4 || l == 5);
    lemma_axis_within(at.pos.x as int, cam_x as int, vd_blocks as int, d.ceil as int, scale(l));
    lemma_axis_within(at.pos.z as int, cam_z as int, vd_blocks as int, d.ceil as int, scale(l));
}

/// [`wanted_lod_chunks`] lists each chunk that the camera wants once, and
/// nothing else: where the measured distances are no shorter than the way
/// along either axis, what is listed is exactly what is wanted.
pub proof fn law_wanted_chunks_are_listed_once<F: Fn(LodPos) -> LodDistance>(
    distance: F,
    cam_x: i32,
    cam_z: i32,
    vd_blocks: i32,
    heights: LodHeights,
)
    requires
        view_distance_ok(vd_blocks),
        forall|p: LodPos|
            wanted(p, #[trigger] distance_by(distance, p), vd_blocks as int, heights) ==> reaches(
                p,
                distance_by(distance, p),
                cam_x as int,
                cam_z as int,
            ),
    ensures
        ({
            let listed = wanted_among(
                candidates(5, cam_x as int, cam_z as int, vd_blocks as int, heights),
                distance,
                vd_blocks as int,
                heights,
            );
            &&& listed.no_duplicates()
            &&& forall|p: LodPos| #[trigger]
                listed.contains(p) <==> wanted(
                    p,
                    distance_by(distance, p),
                    vd_blocks as int,
                    heights,
                )
        }),
{
    let all = candidates(5, cam_x as int, cam_z as int, vd_blocks as int, heights);
    let pred = |p: LodPos| wanted(p, distance_by(distance, p), vd_blocks as int, heights);
    lemma_candidates(5, cam_x, cam_z, vd_blocks, heights);
    lemma_filter_contains(all, pred);
    let listed = wanted_among(all, distance, vd_blocks as int, heights);
    assert(listed == all.filter(pred));
    assert forall|p: LodPos| #[trigger] listed.contains(p) <==> wanted(
        p,
        distance_by(distance, p),
        vd_blocks as int,
        heights,
    ) by {
        assert(listed.contains(p) <==> all.contains(p) && pred(p));
        if pred(p) {
            law_no_wanted_chunk_is_missed(
                p,
                distance_by(distance, p),
                cam_x,
                cam_z,
                vd_blocks,
                heights,
            );
        }
    }
}

/// Two to the power of a level.
pub open spec fn doubled(level: int) -> int {
    if level == 0 {
        1
    } else if level == 1 {
        2
    } else if level == 2 {
        4
    } else if level == 3 {
        8
    } else if level == 4 {
        16
    } else {
        32
    }
}

/// A chunk of any level and any layer that the world has is listed exactly
/// where its measured distance lies in the level's band: from the view
/// distance, doubled once per finer level, less one chunk, up to the view
/// distance doubled once more. Nothing else counts, the layer least of all.
pub proof fn law_the_band_decides<F: Fn(LodPos) -> LodDistance>(
    distance: F,
    cam_x: i32,
    cam_z: i32,
    vd_blocks: i32,
    heights: LodHeights,
    level: u8,
    x: i32,
    y: i32,
    z: i32,
)
    requires
        view_distance_ok(vd_blocks),
        1 <= level <= 5,
        forall|p: LodPos|
            {
                let d = #[trigger] distance_by(distance, p);
                let size = 32 * doubled(p.level as int);
                &&& -2 * d.ceil - 2 <= (2 * p.pos.x + 1) * size - 2 * cam_x <= 2 * d.ceil + 2
                &&& -2 * d.ceil - 2 <= (2 * p.pos.z + 1) * size - 2 * cam_z <= 2 * d.ceil + 2
            } || !(1 <= p.level <= 5),
    ensures
        ({
            let at = LodPos { level, pos: IVec3 { x, y, z } };
            let d = distance_by(distance, at);
            let listed = wanted_among(
                candidates(5, cam_x as int, cam_z as int, vd_blocks as int, heights),
                distance,
                vd_blocks as int,
                heights,
            );
            listed.contains(at) <==> {
                &&& 0 <= y < heights@[level as int]
                &&& vd_blocks * doubled(level - 1) - 32 * doubled(level as int) <= d.floor
                &&& d.ceil <= vd_blocks * doubled(level as int)
            }
        }),
{
    lemma_scales();
    let at = LodPos { level, pos: IVec3 { x, y, z } };
    assert forall|p: LodPos| wanted(
        p,
        #[trigger] distance_by(distance, p),
        vd_blocks as int,
        heights,
    ) implies reaches(p, distance_by(distance, p), cam_x as int, cam_z as int) by {
        assert(span(p.level as int) == 32 * doubled(p.level as int));
    }
    law_wanted_chunks_are_listed_once(distance, cam_x, cam_z, vd_blocks, heights);
    let listed = wanted_among(
        candidates(5, cam_x as int, cam_z as int, vd_blocks as int, heights),
        distance,
        vd_blocks as int,
        heights,
    );
    assert(listed.contains(at) <==> wanted(
        at,
        distance_by(distance, at),
        vd_blocks as int,
        heights,
    ));
    assert(scale(level as int) == doubled(level as int));
    assert(scale(level - 1) == doubled(level - 1));
}

/// Whether a chunk is wanted, and whether it is kept, depends on its level,
/// its distance and the layers that the world has, on nothing else: all layers
/// that exist are treated alike, and a chunk outside the world or on no level
/// is neither wanted nor kept.
pub proof fn law_layers_are_alike(
    level: u8,
    x: i32,
    y: i32,
    z: i32,
    other_x: i32,
    other_y: i32,
    other_z: i32,
    d: LodDistance,
    vd_blocks: int,
    heights: LodHeights,
)
    ensures
        ({
            let a = LodPos { level, pos: IVec3 { x, y, z } };
            let b = LodPos { level, pos: IVec3 { x: other_x, y: other_y, z: other_z } };
            let a_exists = 1 <= level <= 5 && 0 <= y < heights@[level as int];
            let b_exists = 1 <= level <= 5 && 0 <= other_y < heights@[level as int];
            &&& a_exists && b_exists ==> wanted(a, d, vd_blocks, heights) == wanted(
                b,
                d,
                vd_blocks,
                heights,
            )
            &&& a_exists && b_exists ==> kept(a, d, vd_blocks, heights) == kept(
                b,
                d,
                vd_blocks,
                heights,
            )
            &&& !a_exists ==> !wanted(a, d, vd_blocks, heights) && !kept(a, d, vd_blocks, heights)
            &&& a_exists ==> (kept(a, d, vd_blocks, heights) <==> {
                &&& 0 <= d.floor
                &&& vd_blocks * doubled(level - 1) - 64 * doubled(level as int) <= d.floor
                &&& d.ceil <= vd_blocks * doubled(level as int) + 32 * doubled(level as int)
            })
        }),
{
    lemma_scales();
    if 1 <= level <= 5 {
        assert(scale(level as int) == doubled(level as int));
        assert(scale(level - 1) == doubled(level - 1));
    }
}

/// A chunk whose centre is within the outer bound along one axis is within
/// the radius along that axis.
proof fn lemma_axis_within(p: int, cam: int, vd: int, ceil: int, s: int)
    requires
        s == 2 || s == 4 || s == 8 || s == 16 || s == 32,
        0 <= vd,
        ceil <= vd * s,
        -2 * ceil - 2 <= (2 * p + 1) * (32 * s) - 2 * cam <= 2 * ceil + 2,
    ensures
        cam / (32 * s) - radius(vd) <= p <= cam / (32 * s) + radius(vd),
{
    if s == 2 {
        assert(vd * s == vd * 2 && (2 * p + 1) * (32 * s) == (2 * p + 1) * 64);
        assert(cam / (32 * s) == cam / 64);
    } else if s == 4 {
        assert(vd * s == vd * 4 && (2 * p + 1) * (32 * s) == (2 * p + 1) * 128);
        assert(cam / (32 * s) == cam / 128);
    } else if s == 8 {
        assert(vd * s == vd * 8 && (2 * p + 1) * (32 * s) == (2 * p + 1) * 256);
        assert(cam / (32 * s) == cam / 256);
    } else if s == 16 {
        assert(vd * s == vd * 16 && (2 * p + 1) * (32 * s) == (2 * p + 1) * 512);
        assert(cam / (32 * s) == cam / 512);
    } else {
        assert(vd * s == vd * 32 && (2 * p + 1) * (32 * s) == (2 * p + 1) * 1024);
        assert(cam / (32 * s) == cam / 1024);
    }
}

/// Coarse chunks received from the server and the state of their meshes.
#[derive(Debug)]
pub struct LodStore {
    pub chunks: PackedMap<LodPos, Chunk>,
    pub requested: PackedSet<LodPos>,
    pub meshed: PackedSet<LodPos>,
    pub entities: PackedMap<LodPos, u64>,
}

impl LodPos {
    /// Whether two positions are neighbours on one level.
    pub open spec fn next_to(self, other: LodPos) -> bool {
        self.level == other.level && crate::view::adjacent(self.pos, other.pos)
    }

    /// The neighbour on one side, where it can be represented.
    pub open spec fn spec_beside(self, side: Face) -> Option<LodPos> {
        if self.pos.can_shift(side.spec_normal()) {
            Some(LodPos { level: self.level, pos: self.pos.shifted(side.spec_normal()) })
        } else {
            None
        }
    }

    /// The neighbour on one side, where it can be represented.
    pub fn beside(self, side: Face) -> (r: Option<LodPos>)
        ensures
            r == self.spec_beside(side),
    {
        match crate::view::neighbor_pos(self.pos, side) {
            Some(pos) => Some(LodPos { level: self.level, pos }),
            None => None,
        }
    }
}

impl LodStore {
    /// An empty store.
    pub fn new() -> (store: LodStore)
        ensures
            store.is_clear(),
    {
        LodStore {
            chunks: PackedMap::new(),
            requested: PackedSet::new(),
            meshed: PackedSet::new(),
            entities: PackedMap::new(),
        }
    }

    /// Whether nothing is stored.
    pub open spec fn is_clear(self) -> bool {
        &&& self.chunks@ == Map::<LodPos, Chunk>::empty()
        &&& self.requested@ == Set::<LodPos>::empty()
        &&& self.meshed@ == Set::<LodPos>::empty()
        &&& self.entities@ == Map::<LodPos, u64>::empty()
    }

    /// Whether every block in the store is registered, and air is.
    pub open spec fn registered(self, registry: BlockRegistry) -> bool {
        &&& registry.has(BlockId(0))
        &&& forall|c: LodPos, p: UVec3|
            self.chunks@.contains_key(c) && p.in_chunk() ==> registry.has(
                #[trigger] self.chunks@[c].block(p),
            )
    }

    /// The neighbouring chunk on one side, if it has arrived.
    pub open spec fn neighbor(&self, at: LodPos, side: Face) -> Option<&Chunk> {
        match at.spec_beside(side) {
            Some(n) => if self.chunks@.contains_key(n) {
                Some(&self.chunks@[n])
            } else {
                None
            },
            None => None,
        }
    }

    /// What the mesh of a chunk is built from. A neighbour that has not
    /// arrived counts as air, which closes the rim of a ring with walls.
    pub open spec fn source<'a>(&'a self, at: LodPos, registry: &'a BlockRegistry) -> MeshSource<
        'a,
    > {
        unlit(
            &self.chunks@[at],
            [
                self.neighbor(at, Face::NegX),
                self.neighbor(at, Face::PosX),
                self.neighbor(at, Face::NegY),
                self.neighbor(at, Face::PosY),
                self.neighbor(at, Face::NegZ),
                self.neighbor(at, Face::PosZ),
            ],
            registry,
        )
    }

    /// The quads of a chunk's mesh.
    pub open spec fn quads(&self, at: LodPos, registry: &BlockRegistry) -> Seq<Quad> {
        self.source(at, registry).quads()
    }
}

/// Whether a store got from one state to another by the arrival of a chunk.
pub open spec fn inserted(before: LodStore, after: LodStore, at: LodPos, chunk: Chunk) -> bool {
    &&& after.chunks@ == before.chunks@.insert(at, chunk)
    &&& after.requested@ == before.requested@.remove(at)
    &&& after.entities@ == before.entities@
    &&& forall|p: LodPos| #[trigger]
        after.meshed@.contains(p) <==> before.meshed@.contains(p) && p != at && !at.next_to(p)
}

/// Stores a chunk that arrived. It and its neighbours have to be meshed
/// again: their meshes may have taken it for air.
pub fn insert_lod_chunk(store: &mut LodStore, at: LodPos, chunk: Chunk)
    ensures
        inserted(*old(store), *final(store), at, chunk),
{
    store.chunks.insert(at, chunk);
    store.requested.remove(at);
    store.meshed.remove(at);
    unmark_beside(&mut store.meshed, at, Face::NegX);
    unmark_beside(&mut store.meshed, at, Face::PosX);
    unmark_beside(&mut store.meshed, at, Face::NegY);
    unmark_beside(&mut store.meshed, at, Face::PosY);
    unmark_beside(&mut store.meshed, at, Face::NegZ);
    unmark_beside(&mut store.meshed, at, Face::PosZ);
}

fn unmark_beside(meshed: &mut PackedSet<LodPos>, at: LodPos, side: Face)
    ensures
        final(meshed)@ == match at.spec_beside(side) {
            Some(n) => old(meshed)@.remove(n),
            None => old(meshed)@,
        },
{
    match at.beside(side) {
        Some(n) => {
            meshed.remove(n);
        },
        None => {},
    }
}

/// A chunk that arrives leaves the mesh of every chunk as it was that
/// [`insert_lod_chunk`] does not mark for meshing.
pub proof fn law_unmarked_lod_meshes_stay(
    before: LodStore,
    after: LodStore,
    at: LodPos,
    chunk: Chunk,
    other: LodPos,
    registry: BlockRegistry,
)
    requires
        inserted(before, after, at, chunk),
        before.chunks@.contains_key(other),
        other != at,
        !at.next_to(other),
    ensures
        after.quads(other, &registry) == before.quads(other, &registry),
{
    assert forall|side: Face| #[trigger]
        after.neighbor(other, side) == before.neighbor(other, side) by {
        let n = other.spec_beside(side);
        if n == Some(at) {
            assert(at.next_to(other));
        }
    }
    assert(after.neighbor(other, Face::NegX) == before.neighbor(other, Face::NegX));
    assert(after.neighbor(other, Face::PosX) == before.neighbor(other, Face::PosX));
    assert(after.neighbor(other, Face::NegY) == before.neighbor(other, Face::NegY));
    assert(after.neighbor(other, Face::PosY) == before.neighbor(other, Face::PosY));
    assert(after.neighbor(other, Face::NegZ) == before.neighbor(other, Face::NegZ));
    assert(after.neighbor(other, Face::PosZ) == before.neighbor(other, Face::PosZ));
}

/// A request for chunks of one level.
#[derive(Debug)]
pub struct LodRequest {
    pub level: u8,
    pub positions: Vec<IVec3>,
}

impl View for LodRequest {
    type V = (u8, Seq<IVec3>);

    open spec fn view(&self) -> (u8, Seq<IVec3>) {
        (self.level, self.positions@)
    }
}

/// The listed positions of one level.
pub open spec fn on_level(list: Seq<LodPos>, level: int) -> Seq<IVec3> {
    list.filter(|p: LodPos| p.level == level).map_values(|p: LodPos| p.pos)
}

/// The listed positions, grouped by the first `n` levels; a level without
/// positions is left out.
pub open spec fn by_level(list: Seq<LodPos>, n: int) -> Seq<(u8, Seq<IVec3>)>
    decreases n,
{
    if n <= 0 {
        Seq::empty()
    } else if on_level(list, n).len() == 0 {
        by_level(list, n - 1)
    } else {
        by_level(list, n - 1).push((n as u8, on_level(list, n)))
    }
}

impl LodStore {
    /// The listed chunks that have neither arrived nor been asked for.
    pub open spec fn missing(self, list: Seq<LodPos>) -> Seq<LodPos> {
        list.filter(|p: LodPos| !self.chunks@.contains_key(p) && !self.requested@.contains(p))
    }
}

/// Asks for the nearest wanted chunks that are missing, as many as one frame
/// allows, and notes them as requested.
pub fn request_lod_chunks<F: Fn(LodPos) -> LodDistance + Copy>(
    store: &mut LodStore,
    cam_x: i32,
    cam_z: i32,
    distance: F,
    vd_blocks: i32,
    heights: &LodHeights,
) -> (requests: Vec<LodRequest>)
    requires
        measures(distance),
        view_distance_ok(vd_blocks),
    ensures
        ({
            let listed = candidates(5, cam_x as int, cam_z as int, vd_blocks as int, *heights);
            let missing = old(store).missing(
                wanted_among(listed, distance, vd_blocks as int, *heights),
            );
            let chosen = first_of(keyed(missing, order_by(distance)), 128);
            &&& requests@.map_values(|r: LodRequest| r@) == by_level(chosen, 5)
            &&& final(store).requested@ == old(store).requested@.union(chosen.to_set())
        }),
        final(store).chunks@ == old(store).chunks@,
        final(store).meshed@ == old(store).meshed@,
        final(store).entities@ == old(store).entities@,
{
    let wanted_list = wanted_lod_chunks(cam_x, cam_z, distance, vd_blocks, heights);
    let ghost pred = |p: LodPos| !store.chunks@.contains_key(p) && !store.requested@.contains(p);
    let mut keys: Vec<(u128, LodPos)> = Vec::new();
    let mut n: usize = 0;
    proof {
        lemma_filter_empty(wanted_list@.take(0), pred);
    }
    while n < wanted_list.len()
        invariant
            measures(distance),
            n <= wanted_list@.len(),
            pred == (|p: LodPos| !store.chunks@.contains_key(p) && !store.requested@.contains(p)),
            keys@ =~= keyed(wanted_list@.take(n as int).filter(pred), order_by(distance)),
        decreases wanted_list@.len() - n,
    {
        let at = wanted_list[n];
        proof {
            let seen = wanted_list@.take(n as int);
            assert(wanted_list@.take(n + 1) =~= seen.push(at));
            lemma_filter_push(seen, at, pred);
        }
        if !store.chunks.contains_key(at) && !store.requested.contains(at) {
            let d = distance(at);
            assert(d == distance_by(distance, at));
            keys.push((d.order as u128, at));
        }
        n += 1;
    }
    assert(wanted_list@.take(n as int) =~= wanted_list@);
    let chosen = take_first(keys, MAX_LOD_CHUNK_REQUESTS_PER_FRAME);
    mark_requested(&mut store.requested, &chosen);
    let mut requests: Vec<LodRequest> = Vec::new();
    let mut level: u8 = 1;
    assert(requests@.map_values(|r: LodRequest| r@) =~= by_level(chosen@, 0));
    while level <= MAX_LOD
        invariant
            1 <= level <= 6,
            requests@.map_values(|r: LodRequest| r@) == by_level(chosen@, level - 1),
        decreases 6 - level,
    {
        let positions = positions_on_level(&chosen, level);
        if positions.len() > 0 {
            let ghost before = requests@;
            let request = LodRequest { level, positions };
            let ghost seen = request@;
            requests.push(request);
            assert(requests@.map_values(|r: LodRequest| r@) =~= before.map_values(
                |r: LodRequest| r@,
            ).push(seen));
        }
        level += 1;
    }
    requests
}

/// The chunks that [`request_lod_chunks`] asks for are the nearest of all that
/// are wanted and missing, nearest first, none twice and at most 128.
pub proof fn law_lod_requests_are_nearest<F: Fn(LodPos) -> LodDistance>(
    store: LodStore,
    cam_x: i32,
    cam_z: i32,
    distance: F,
    vd_blocks: i32,
    heights: LodHeights,
)
    requires
        view_distance_ok(vd_blocks),
    ensures
        ({
            let listed = candidates(5, cam_x as int, cam_z as int, vd_blocks as int, heights);
            let missing = store.missing(
                wanted_among(listed, distance, vd_blocks as int, heights),
            );
            is_least(
                first_of(keyed(missing, order_by(distance)), 128),
                Set::new(
                    |p: LodPos|
                        looked_at(p, cam_x as int, cam_z as int, vd_blocks as int, heights)
                            && wanted(p, distance_by(distance, p), vd_blocks as int, heights)
                            && !store.chunks@.contains_key(p) && !store.requested@.contains(p),
                ),
                order_by(distance),
                128,
            )
        }),
{
    let listed = candidates(5, cam_x as int, cam_z as int, vd_blocks as int, heights);
    let is_wanted_now = |p: LodPos|
        wanted(p, distance_by(distance, p), vd_blocks as int, heights);
    let is_missing = |p: LodPos| !store.chunks@.contains_key(p) && !store.requested@.contains(p);
    let wanted_list = wanted_among(listed, distance, vd_blocks as int, heights);
    let missing = store.missing(wanted_list);
    lemma_candidates(5, cam_x, cam_z, vd_blocks, heights);
    lemma_filter_contains(listed, is_wanted_now);
    lemma_filter_contains(wanted_list, is_missing);
    assert(wanted_list == listed.filter(is_wanted_now));
    assert(missing == wanted_list.filter(is_missing));
    let set = Set::new(
        |p: LodPos|
            looked_at(p, cam_x as int, cam_z as int, vd_blocks as int, heights) && wanted(
                p,
                distance_by(distance, p),
                vd_blocks as int,
                heights,
            ) && !store.chunks@.contains_key(p) && !store.requested@.contains(p),
    );
    assert forall|p: LodPos| missing.to_set().contains(p) == set.contains(p) by {
        assert(missing.contains(p) == (wanted_list.contains(p) && is_missing(p)));
        assert(wanted_list.contains(p) == (listed.contains(p) && is_wanted_now(p)));
    }
    assert(missing.to_set() =~= set);
    lemma_first_is_least(missing, order_by(distance), 128);
}

/// The listed positions of one level.
fn positions_on_level(list: &Vec<LodPos>, level: u8) -> (positions: Vec<IVec3>)
    ensures
        positions@ == on_level(list@, level as int),
{
    let ghost pred = |p: LodPos| p.level == level as int;
    let mut positions: Vec<IVec3> = Vec::new();
    let mut n: usize = 0;
    proof {
        lemma_filter_empty(list@.take(0), pred);
    }
    while n < list.len()
        invariant
            n <= list@.len(),
            pred == (|p: LodPos| p.level == level as int),
            positions@ =~= list@.take(n as int).filter(pred).map_values(|p: LodPos| p.pos),
        decreases list@.len() - n,
    {
        proof {
            let seen = list@.take(n as int);
            assert(list@.take(n + 1) =~= seen.push(list@[n as int]));
            lemma_filter_push(seen, list@[n as int], pred);
        }
        if list[n].level == level {
            positions.push(list[n].pos);
        }
        n += 1;
    }
    assert(list@.take(n as int) =~= list@);
    positions
}

/// Adds all listed positions to a set.
fn mark_requested(set: &mut PackedSet<LodPos>, list: &Vec<LodPos>)
    ensures
        final(set)@ == old(set)@.union(list@.to_set()),
{
    let ghost before = set@;
    let mut n: usize = 0;
    assert(set@ =~= before.union(list@.take(0).to_set()));
    while n < list.len()
        invariant
            n <= list@.len(),
            set@ =~= before.union(list@.take(n as int).to_set()),
        decreases list@.len() - n,
    {
        set.insert(list[n]);
        proof {
            let seen = list@.take(n as int);
            assert(list@.take(n + 1) =~= seen.push(list@[n as int]));
            crate::lists::lemma_push_contains(seen, list@[n as int]);
        }
        n += 1;
    }
    assert(list@.take(n as int) =~= list@);
}

/// The neighbouring chunk on one side, if it has arrived.
fn lod_neighbor<'a>(store: &'a LodStore, at: LodPos, side: Face) -> (r: Option<&'a Chunk>)
    ensures
        r == store.neighbor(at, side),
{
    match at.beside(side) {
        Some(n) => store.chunks.get(n),
        None => None,
    }
}

/// Builds the mesh of a chunk that has arrived; `None` if it has not.
pub fn build_lod_chunk(store: &LodStore, at: LodPos, registry: &BlockRegistry) -> (r: Option<
    MeshBuild,
>)
    requires
        store.registered(*registry),
    ensures
        r is Some == store.chunks@.contains_key(at),
        r matches Some(mesh) ==> mesh.wf() && mesh@ == store.quads(at, registry),
{
    match store.chunks.get(at) {
        None => None,
        Some(chunk) => {
            let neighbors = [
                lod_neighbor(store, at, Face::NegX),
                lod_neighbor(store, at, Face::PosX),
                lod_neighbor(store, at, Face::NegY),
                lod_neighbor(store, at, Face::PosY),
                lod_neighbor(store, at, Face::NegZ),
                lod_neighbor(store, at, Face::PosZ),
            ];
            proof {
                lemma_lod_source_registered(*store, at, registry);
            }
            Some(build_chunk_mesh(chunk, neighbors, registry))
        },
    }
}

proof fn lemma_lod_source_registered(store: LodStore, at: LodPos, registry: &BlockRegistry)
    requires
        store.registered(*registry),
        store.chunks@.contains_key(at),
    ensures
        store.source(at, registry).registered(),
{
    let source = store.source(at, registry);
    assert forall|p: IVec3| reachable(p) implies registry.has(#[trigger] source.block_at(p)) by {
        assert(p.local_of().in_chunk());
        match beyond(p) {
            None => {
                assert(registry.has(store.chunks@[at].block(p.local_of())));
            },
            Some(side) => {
                assert(source.neighbors@[side.number()] == store.neighbor(at, side));
                if store.neighbor(at, side) is Some {
                    let n = at.spec_beside(side)->0;
                    assert(registry.has(store.chunks@[n].block(p.local_of())));
                }
            },
        }
    }
}

/// What is to be done with the entity of a meshed coarse chunk.
#[derive(Debug)]
pub enum LodAction {
    Despawn { at: LodPos, entity: u64 },
    Replace { at: LodPos, entity: u64, mesh: MeshBuild },
    /// Spawn an entity, to be recorded in the store.
    Spawn { at: LodPos, mesh: MeshBuild },
}

/// A [`LodAction`] with the mesh as its quads.
pub enum LodStep {
    Despawn { at: LodPos, entity: u64 },
    Replace { at: LodPos, entity: u64, quads: Seq<Quad> },
    Spawn { at: LodPos, quads: Seq<Quad> },
}

impl View for LodAction {
    type V = LodStep;

    open spec fn view(&self) -> LodStep {
        match *self {
            LodAction::Despawn { at, entity } => LodStep::Despawn { at, entity },
            LodAction::Replace { at, entity, mesh } => LodStep::Replace { at, entity, quads: mesh@ },
            LodAction::Spawn { at, mesh } => LodStep::Spawn { at, quads: mesh@ },
        }
    }
}

impl LodAction {
    /// Whether the buffers of the mesh fit together.
    pub open spec fn wf(self) -> bool {
        match self {
            LodAction::Despawn { .. } => true,
            LodAction::Replace { mesh, .. } => mesh.wf(),
            LodAction::Spawn { mesh, .. } => mesh.wf(),
        }
    }
}

impl LodStore {
    /// What meshing a chunk asks for: its entity, if it has one, gets the
    /// new mesh or goes; otherwise one is spawned where anything is visible.
    pub open spec fn step(&self, at: LodPos, registry: &BlockRegistry) -> Seq<LodStep> {
        let quads = self.quads(at, registry);
        if self.entities@.contains_key(at) {
            let entity = self.entities@[at];
            if quads.len() == 0 {
                seq![LodStep::Despawn { at, entity }]
            } else {
                seq![LodStep::Replace { at, entity, quads }]
            }
        } else if quads.len() == 0 {
            Seq::empty()
        } else {
            seq![LodStep::Spawn { at, quads }]
        }
    }

    pub open spec fn steps(&self, list: Seq<LodPos>, registry: &BlockRegistry) -> Seq<LodStep>
        decreases list.len(),
    {
        if list.len() == 0 {
            Seq::empty()
        } else {
            self.steps(list.drop_last(), registry) + self.step(list.last(), registry)
        }
    }

    /// The chunks that have arrived and are to be meshed.
    pub open spec fn unmeshed(&self) -> Set<LodPos> {
        self.chunks@.dom().difference(self.meshed@)
    }

    /// The listed chunks whose mesh is empty.
    pub open spec fn emptied(&self, list: Seq<LodPos>, registry: &BlockRegistry) -> Set<LodPos> {
        Set::new(|p: LodPos| list.contains(p) && self.quads(p, registry).len() == 0)
    }
}

/// The actions as steps.
pub open spec fn lod_steps(actions: Seq<LodAction>) -> Seq<LodStep> {
    actions.map_values(|a: LodAction| a@)
}

/// What one frame meshes of the coarse chunks.
#[derive(Debug)]
pub struct LodMeshPlan {
    /// The chunks that were meshed, nearest first.
    pub meshed: Vec<LodPos>,
    /// What is to be done about their entities, in order.
    pub actions: Vec<LodAction>,
    /// What is left of the frame's budget.
    pub left: usize,
}

/// Meshes the nearest coarse chunks that are not meshed, as many as the
/// budget allows.
pub fn mesh_lod_chunks<F: Fn(LodPos) -> LodDistance + Copy>(
    store: &mut LodStore,
    registry: &BlockRegistry,
    distance: F,
    budget: usize,
) -> (plan: LodMeshPlan)
    requires
        old(store).registered(*registry),
        measures(distance),
    ensures
        is_least(plan.meshed@, old(store).unmeshed(), order_by(distance), budget as int),
        plan.left + plan.meshed@.len() == budget,
        lod_steps(plan.actions@) == old(store).steps(plan.meshed@, registry),
        forall|n: int| 0 <= n < plan.actions@.len() ==> (#[trigger] plan.actions@[n]).wf(),
        final(store).chunks@ == old(store).chunks@,
        final(store).requested@ == old(store).requested@,
        final(store).meshed@ == old(store).meshed@.union(plan.meshed@.to_set()),
        final(store).entities@ == old(store).entities@.remove_keys(
            old(store).emptied(plan.meshed@, registry),
        ),
{
    let ghost before = *store;
    let loaded = store.chunks.keys();
    let ghost mut items: Seq<LodPos> = Seq::empty();
    let mut keys: Vec<(u128, LodPos)> = Vec::new();
    let mut n: usize = 0;
    while n < loaded.len()
        invariant
            measures(distance),
            n <= loaded@.len(),
            loaded@.no_duplicates(),
            items.no_duplicates(),
            forall|p: LodPos| #[trigger]
                items.contains(p) <==> loaded@.take(n as int).contains(p) && !store.meshed@.contains(p),
            keys@ =~= keyed(items, order_by(distance)),
        decreases loaded@.len() - n,
    {
        let at = loaded[n];
        proof {
            let seen = loaded@.take(n as int);
            assert(loaded@.take(n + 1) =~= seen.push(at));
            assert(!seen.contains(at));
            crate::lists::lemma_push_contains(seen, at);
            crate::lists::lemma_push_contains(items, at);
        }
        if !store.meshed.contains(at) {
            let d = distance(at);
            assert(d == distance_by(distance, at));
            keys.push((d.order as u128, at));
            proof {
                items = items.push(at);
            }
        }
        n += 1;
    }
    proof {
        assert(loaded@.take(n as int) =~= loaded@);
        assert forall|p: LodPos| items.to_set().contains(p) == before.unmeshed().contains(p) by {
            assert(loaded@.to_set().contains(p) == before.chunks@.dom().contains(p));
        }
        assert(items.to_set() =~= before.unmeshed());
        lemma_first_is_least(items, order_by(distance), budget as int);
    }
    let meshed = take_first(keys, budget);
    let mut actions: Vec<LodAction> = Vec::new();
    let mut m: usize = 0;
    proof {
        let none = meshed@.take(0);
        assert(store.meshed@ =~= before.meshed@.union(none.to_set()));
        assert(store.entities@ =~= before.entities@.remove_keys(before.emptied(none, registry)));
        assert(lod_steps(actions@) =~= before.steps(none, registry));
    }
    while m < meshed.len()
        invariant
            m <= meshed@.len(),
            meshed@.no_duplicates(),
            forall|k: int| 0 <= k < meshed@.len() ==> before.chunks@.contains_key(#[trigger] meshed@[k]),
            before.registered(*registry),
            store.chunks@ == before.chunks@,
            store.requested@ == before.requested@,
            store.meshed@ == before.meshed@.union(meshed@.take(m as int).to_set()),
            store.entities@ == before.entities@.remove_keys(
                before.emptied(meshed@.take(m as int), registry),
            ),
            lod_steps(actions@) == before.steps(meshed@.take(m as int), registry),
            forall|k: int| 0 <= k < actions@.len() ==> (#[trigger] actions@[k]).wf(),
        decreases meshed@.len() - m,
    {
        let at = meshed[m];
        let ghost seen = meshed@.take(m as int);
        let ghost upto = meshed@.take(m + 1);
        let ghost so_far = actions@;
        proof {
            assert(upto =~= seen.push(at));
            assert(upto.drop_last() =~= seen);
            assert(!seen.contains(at));
            crate::lists::lemma_push_contains(seen, at);
            lemma_same_chunks_quads(&*store, &before, at, registry);
        }
        let action = mesh_one(store, registry, at);
        match action {
            Some(a) => {
                actions.push(a);
                assert(lod_steps(actions@) =~= lod_steps(so_far) + seq![a@]);
            },
            None => {},
        }
        proof {
            assert(lod_steps(actions@) =~= before.steps(upto, registry));
            assert(store.meshed@ =~= before.meshed@.union(upto.to_set()));
            assert(store.entities@ =~= before.entities@.remove_keys(before.emptied(upto, registry)));
        }
        m += 1;
    }
    assert(meshed@.take(m as int) =~= meshed@);
    let left: usize = budget - meshed.len();
    LodMeshPlan { meshed, actions, left }
}

/// The chunks of a store decide the meshes.
proof fn lemma_same_chunks_quads(a: &LodStore, b: &LodStore, at: LodPos, registry: &BlockRegistry)
    requires
        a.chunks@ == b.chunks@,
    ensures
        a.quads(at, registry) == b.quads(at, registry),
{
    assert(a.neighbor(at, Face::NegX) == b.neighbor(at, Face::NegX));
}

/// Meshes one chunk.
fn mesh_one(store: &mut LodStore, registry: &BlockRegistry, at: LodPos) -> (action: Option<LodAction>)
    requires
        old(store).registered(*registry),
        old(store).chunks@.contains_key(at),
    ensures
        final(store).chunks@ == old(store).chunks@,
        final(store).requested@ == old(store).requested@,
        final(store).meshed@ == old(store).meshed@.insert(at),
        final(store).entities@ == if old(store).quads(at, registry).len() == 0 {
            old(store).entities@.remove(at)
        } else {
            old(store).entities@
        },
        old(store).step(at, registry) == match action {
            Some(a) => seq![a@],
            None => Seq::empty(),
        },
        action matches Some(a) ==> a.wf(),
{
    let entity = match store.entities.get(at) {
        Some(entity) => Some(*entity),
        None => None,
    };
    match build_lod_chunk(store, at, registry) {
        None => None,
        Some(mesh) => {
            store.meshed.insert(at);
            let empty = mesh.is_empty();
            match entity {
                Some(entity) => {
                    if empty {
                        store.entities.remove(at);
                        Some(LodAction::Despawn { at, entity })
                    } else {
                        Some(LodAction::Replace { at, entity, mesh })
                    }
                },
                None => {
                    if empty {
                        assert(store.entities@ =~= old(store).entities@.remove(at));
                        None
                    } else {
                        Some(LodAction::Spawn { at, mesh })
                    }
                },
            }
        },
    }
}

/// Positions that left the store, and the entities they had.
#[derive(Debug)]
pub struct LodRemoved {
    pub positions: Vec<LodPos>,
    pub entities: Vec<u64>,
}

/// The entities of the listed positions, in order.
pub open spec fn lod_entities_of(entities: Map<LodPos, u64>, list: Seq<LodPos>) -> Seq<u64>
    decreases list.len(),
{
    if list.len() == 0 {
        Seq::empty()
    } else if entities.contains_key(list.last()) {
        lod_entities_of(entities, list.drop_last()).push(entities[list.last()])
    } else {
        lod_entities_of(entities, list.drop_last())
    }
}

/// The chunks of a store that are too far from their band.
pub open spec fn stale<F: Fn(LodPos) -> LodDistance>(
    store: LodStore,
    distance: F,
    vd_blocks: int,
    heights: LodHeights,
) -> Set<LodPos> {
    store.chunks@.dom().filter(
        |p: LodPos| !kept(p, distance_by(distance, p), vd_blocks, heights),
    )
}

/// Forgets every chunk that is too far from its band, and returns what was
/// removed.
pub fn despawn_stale_lod_chunks<F: Fn(LodPos) -> LodDistance + Copy>(
    store: &mut LodStore,
    distance: F,
    vd_blocks: i32,
    heights: &LodHeights,
) -> (removed: LodRemoved)
    requires
        measures(distance),
        view_distance_ok(vd_blocks),
    ensures
        removed.positions@.no_duplicates(),
        removed.positions@.to_set() == stale(*old(store), distance, vd_blocks as int, *heights),
        removed.entities@ == lod_entities_of(old(store).entities@, removed.positions@),
        final(store).chunks@ == old(store).chunks@.remove_keys(removed.positions@.to_set()),
        final(store).entities@ == old(store).entities@.remove_keys(removed.positions@.to_set()),
        final(store).requested@ == old(store).requested@.difference(removed.positions@.to_set()),
        final(store).meshed@ == old(store).meshed@.difference(removed.positions@.to_set()),
{
    let ghost before = *store;
    let loaded = store.chunks.keys();
    let mut positions: Vec<LodPos> = Vec::new();
    let mut entities: Vec<u64> = Vec::new();
    let mut n: usize = 0;
    proof {
        let none = Seq::<LodPos>::empty();
        assert(store.chunks@ =~= before.chunks@.remove_keys(none.to_set()));
        assert(store.entities@ =~= before.entities@.remove_keys(none.to_set()));
        assert(store.requested@ =~= before.requested@.difference(none.to_set()));
        assert(store.meshed@ =~= before.meshed@.difference(none.to_set()));
        assert(positions@ =~= none);
    }
    while n < loaded.len()
        invariant
            measures(distance),
            view_distance_ok(vd_blocks),
            n <= loaded@.len(),
            loaded@.no_duplicates(),
            positions@.no_duplicates(),
            forall|p: LodPos| #[trigger]
                positions@.contains(p) <==> loaded@.take(n as int).contains(p) && !kept(
                    p,
                    distance_by(distance, p),
                    vd_blocks as int,
                    *heights,
                ),
            entities@ == lod_entities_of(before.entities@, positions@),
            store.chunks@ == before.chunks@.remove_keys(positions@.to_set()),
            store.entities@ == before.entities@.remove_keys(positions@.to_set()),
            store.requested@ == before.requested@.difference(positions@.to_set()),
            store.meshed@ == before.meshed@.difference(positions@.to_set()),
        decreases loaded@.len() - n,
    {
        let at = loaded[n];
        let ghost listed = positions@;
        proof {
            let seen = loaded@.take(n as int);
            assert(loaded@.take(n + 1) =~= seen.push(at));
            assert(!seen.contains(at));
            crate::lists::lemma_push_contains(seen, at);
            crate::lists::lemma_push_contains(listed, at);
        }
        let d = distance(at);
        assert(d == distance_by(distance, at));
        proof {
            if 1 <= at.level <= 5 {
                lemma_bands_fit(at.level as int, vd_blocks as int);
            }
        }
        if !is_wanted_with_hysteresis(at, d, vd_blocks, heights) {
            match store.entities.remove(at) {
                Some(entity) => {
                    entities.push(entity);
                },
                None => {},
            }
            store.chunks.remove(at);
            store.requested.remove(at);
            store.meshed.remove(at);
            positions.push(at);
            proof {
                assert(positions@.drop_last() =~= listed);
                let gone = positions@.to_set();
                assert(store.chunks@ =~= before.chunks@.remove_keys(gone));
                assert(store.entities@ =~= before.entities@.remove_keys(gone));
                assert(store.requested@ =~= before.requested@.difference(gone));
                assert(store.meshed@ =~= before.meshed@.difference(gone));
            }
        }
        n += 1;
    }
    proof {
        assert(loaded@.take(n as int) =~= loaded@);
        let gone = stale(before, distance, vd_blocks as int, *heights);
        assert forall|p: LodPos| positions@.to_set().contains(p) == gone.contains(p) by {
            assert(loaded@.to_set().contains(p) == before.chunks@.dom().contains(p));
        }
        assert(positions@.to_set() =~= gone);
    }
    LodRemoved { positions, entities }
}

/// Empties the store at the end of a session and returns every entity.
pub fn clear_lod_chunks(store: &mut LodStore) -> (removed: LodRemoved)
    ensures
        final(store).is_clear(),
        removed.positions@.no_duplicates(),
        removed.positions@.to_set() == old(store).entities@.dom(),
        removed.entities@ == lod_entities_of(old(store).entities@, removed.positions@),
{
    let positions = store.entities.keys();
    let mut entities: Vec<u64> = Vec::new();
    let mut n: usize = 0;
    while n < positions.len()
        invariant
            n <= positions@.len(),
            positions@.to_set() == store.entities@.dom(),
            entities@ == lod_entities_of(store.entities@, positions@.take(n as int)),
        decreases positions@.len() - n,
    {
        assert(positions@.take(n + 1).drop_last() =~= positions@.take(n as int));
        assert(positions@.to_set().contains(positions@[n as int]));
        match store.entities.get(positions[n]) {
            Some(entity) => {
                entities.push(*entity);
            },
            None => {},
        }
        n += 1;
    }
    assert(positions@.take(n as int) =~= positions@);
    store.chunks.clear();
    store.requested.clear();
    store.meshed.clear();
    store.entities.clear();
    LodRemoved { positions, entities }
}

/// A chunk that arrives is no longer waited for, and it and the chunks of its
/// level that are one step away along one axis are meshed again. Every other
/// chunk, near or of another level, keeps its mesh and its blocks.
pub proof fn law_arrival_remeshes_the_neighbors(
    before: LodStore,
    after: LodStore,
    at: LodPos,
    chunk: Chunk,
    p: LodPos,
)
    requires
        inserted(before, after, at, chunk),
    ensures
        ({
            let dx = if at.pos.x < p.pos.x { p.pos.x - at.pos.x } else { at.pos.x - p.pos.x };
            let dy = if at.pos.y < p.pos.y { p.pos.y - at.pos.y } else { at.pos.y - p.pos.y };
            let dz = if at.pos.z < p.pos.z { p.pos.z - at.pos.z } else { at.pos.z - p.pos.z };
            let near = p.level == at.level && dx + dy + dz <= 1;
            &&& after.meshed@.contains(p) <==> before.meshed@.contains(p) && !near
            &&& after.requested@.contains(p) <==> before.requested@.contains(p) && p != at
            &&& after.chunks@.contains_key(p) <==> before.chunks@.contains_key(p) || p == at
            &&& p != at && before.chunks@.contains_key(p) ==> after.chunks@[p] == before.chunks@[p]
            &&& after.chunks@[at] == chunk
            &&& after.entities@ == before.entities@
        }),
{
    if at.pos.x == p.pos.x && at.pos.y == p.pos.y && at.pos.z == p.pos.z && at.level == p.level {
        assert(at == p);
    }
}

/// A loaded chunk is forgotten exactly where it is on no level or outside the
/// world, or where its measured distance lies outside the level's band by more
/// than one of its chunks.
pub proof fn law_stale_chunks_are_out_of_their_band<F: Fn(LodPos) -> LodDistance>(
    store: LodStore,
    distance: F,
    vd_blocks: i32,
    heights: LodHeights,
    p: LodPos,
)
    ensures
        ({
            let d = distance_by(distance, p);
            let level = p.level as int;
            let size = 32 * doubled(level);
            let near = vd_blocks * doubled(level - 1) - size;
            let far = vd_blocks * doubled(level);
            stale(store, distance, vd_blocks as int, heights).contains(p) <==> {
                &&& store.chunks@.contains_key(p)
                &&& {
                    ||| p.level < 1 || p.level > 5
                    ||| p.pos.y < 0 || p.pos.y >= heights@[level]
                    ||| d.floor < 0 || d.floor < near - size
                    ||| d.ceil > far + size
                }
            }
        }),
{
    lemma_scales();
    if 1 <= p.level <= 5 {
        assert(scale(p.level as int) == doubled(p.level as int));
        assert(scale(p.level - 1) == doubled(p.level - 1));
        assert(span(p.level as int) == 32 * doubled(p.level as int));
    }
}

} // verus!

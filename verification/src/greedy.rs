//! Greedy merging of one layer's visible faces into rectangles.
//!
//! A layer is a square mask in row-major order: with `size` cells along each
//! side, cell `(i, j)` is at `j * size + i`. A cell holds the key of the
//! visible face there, if any.

use crate::chunk::{BlockId, LightValue};
use vstd::prelude::*;

verus! {

/// What two faces must share to be merged.
#[derive(Clone, Copy, Debug, PartialEq, Eq, Structural)]
pub struct FaceKey {
    pub block: BlockId,
    pub light: LightValue,
    pub textured: bool,
}

/// A rectangle of equal cells: columns `i..i + w` of rows `j..j + h`.
#[derive(Clone, Copy, Debug, PartialEq, Eq, Structural)]
pub struct Rect {
    pub i: i32,
    pub j: i32,
    pub w: i32,
    pub h: i32,
    pub key: FaceKey,
}

impl Rect {
    /// Whether the rectangle covers a cell.
    pub open spec fn covers(self, i: int, j: int) -> bool {
        self.i <= i < self.i + self.w && self.j <= j < self.j + self.h
    }

    /// Whether the rectangle is not empty and lies inside the mask.
    pub open spec fn in_mask(self, size: int) -> bool {
        &&& 0 <= self.i
        &&& 0 <= self.j
        &&& 1 <= self.w
        &&& 1 <= self.h
        &&& self.i + self.w <= size
        &&& self.j + self.h <= size
    }

    /// Whether the two rectangles share a whole edge and their key, so that
    /// together they would form one rectangle.
    pub open spec fn joins(self, other: Rect) -> bool {
        &&& self.key == other.key
        &&& {
            ||| self.j == other.j && self.h == other.h && (self.i + self.w == other.i || other.i
                + other.w == self.i)
            ||| self.i == other.i && self.w == other.w && (self.j + self.h == other.j || other.j
                + other.h == self.j)
        }
    }
}

/// The content of cell `(i, j)`.
pub open spec fn cell(mask: Seq<Option<FaceKey>>, size: int, i: int, j: int) -> Option<FaceKey> {
    mask[j * size + i]
}

/// Number of consecutive cells of row `j`, from column `i` on, that hold
/// `key`.
pub open spec fn run_width(mask: Seq<Option<FaceKey>>, size: int, i: int, j: int, key: FaceKey) -> int
    decreases size - i,
{
    if i < size && cell(mask, size, i, j) == Some(key) {
        1 + run_width(mask, size, i + 1, j, key)
    } else {
        0
    }
}

/// Whether columns `i..i + w` of row `j` all hold `key`.
pub open spec fn row_holds(
    mask: Seq<Option<FaceKey>>,
    size: int,
    i: int,
    w: int,
    j: int,
    key: FaceKey,
) -> bool {
    forall|c: int| i <= c < i + w ==> #[trigger] cell(mask, size, c, j) == Some(key)
}

/// Number of consecutive rows, from row `j` on, whose columns `i..i + w` all
/// hold `key`.
pub open spec fn run_height(
    mask: Seq<Option<FaceKey>>,
    size: int,
    i: int,
    w: int,
    j: int,
    key: FaceKey,
) -> int
    decreases size - j,
{
    if j < size && row_holds(mask, size, i, w, j, key) {
        1 + run_height(mask, size, i, w, j + 1, key)
    } else {
        0
    }
}

/// The rectangle that grows from the filled cell `n`: as wide as the run of
/// equal cells, then as high as that whole width stays equal.
pub open spec fn grown(mask: Seq<Option<FaceKey>>, size: int, n: int, key: FaceKey) -> Rect {
    let i = n % size;
    let j = n / size;
    let w = run_width(mask, size, i, j, key);
    let h = run_height(mask, size, i, w, j, key);
    Rect { i: i as i32, j: j as i32, w: w as i32, h: h as i32, key }
}

/// The mask without the cells of a rectangle.
pub open spec fn cleared(mask: Seq<Option<FaceKey>>, size: int, r: Rect) -> Seq<Option<FaceKey>> {
    Seq::new(
        mask.len(),
        |c: int| {
            if r.covers(c % size, c / size) {
                None
            } else {
                mask[c]
            }
        },
    )
}

/// The rectangles of a mask, from cell `n` on: the first filled cell grows
/// into a rectangle, which is taken out before the scan goes on behind it.
pub open spec fn greedy(mask: Seq<Option<FaceKey>>, size: int, n: int) -> Seq<Rect>
    decreases
            if n < size * size {
                size * size - n
            } else {
                0
            },
{
    if n >= size * size {
        Seq::empty()
    } else {
        match mask[n] {
            None => greedy(mask, size, n + 1),
            Some(key) => {
                let r = grown(mask, size, n, key);
                if r.w < 1 {
                    Seq::empty()
                } else {
                    seq![r] + greedy(cleared(mask, size, r), size, n + r.w)
                }
            },
        }
    }
}

/// A cell's place gives back the cell.
pub proof fn lemma_place(i: int, j: int, size: int)
    requires
        0 <= i < size,
    ensures
        (j * size + i) % size == i,
        (j * size + i) / size == j,
        0 <= j < size ==> 0 <= j * size + i < size * size,
{
    vstd::arithmetic::div_mod::lemma_fundamental_div_mod_converse(j * size + i, size, j, i);
    assert(0 <= j < size ==> 0 <= j * size && j * size + size <= size * size) by (nonlinear_arith)
        requires
            0 < size,
    ;
}

/// A place in a mask is that of a cell.
pub proof fn lemma_cell_of(n: int, size: int)
    requires
        0 <= n < size * size,
        0 <= size,
    ensures
        0 <= n % size < size,
        0 <= n / size < size,
        (n / size) * size + n % size == n,
{
    assert(size > 0) by (nonlinear_arith)
        requires
            0 < size * size,
            0 <= size,
    ;
    vstd::arithmetic::div_mod::lemma_fundamental_div_mod(n, size);
    vstd::arithmetic::div_mod::lemma_mod_bound(n, size);
    let q = n / size;
    assert(size * q == q * size) by (nonlinear_arith);
    assert(0 <= q < size) by (nonlinear_arith)
        requires
            0 <= n < size * size,
            n == size * q + n % size,
            0 <= n % size < size,
    ;
}

proof fn lemma_run_width(mask: Seq<Option<FaceKey>>, size: int, i: int, j: int, key: FaceKey)
    requires
        0 <= i <= size,
    ensures
        0 <= run_width(mask, size, i, j, key) <= size - i,
        row_holds(mask, size, i, run_width(mask, size, i, j, key), j, key),
        i + run_width(mask, size, i, j, key) < size ==> cell(
            mask,
            size,
            i + run_width(mask, size, i, j, key),
            j,
        ) != Some(key),
    decreases size - i,
{
    if i < size && cell(mask, size, i, j) == Some(key) {
        lemma_run_width(mask, size, i + 1, j, key);
    }
}

proof fn lemma_run_height(
    mask: Seq<Option<FaceKey>>,
    size: int,
    i: int,
    w: int,
    j: int,
    key: FaceKey,
)
    requires
        0 <= j <= size,
    ensures
        0 <= run_height(mask, size, i, w, j, key) <= size - j,
        forall|r: int|
            j <= r < j + run_height(mask, size, i, w, j, key) ==> #[trigger] row_holds(
                mask,
                size,
                i,
                w,
                r,
                key,
            ),
        j + run_height(mask, size, i, w, j, key) < size ==> !row_holds(
            mask,
            size,
            i,
            w,
            j + run_height(mask, size, i, w, j, key),
            key,
        ),
    decreases size - j,
{
    if j < size && row_holds(mask, size, i, w, j, key) {
        lemma_run_height(mask, size, i, w, j + 1, key);
    }
}

/// A rectangle that grows from a filled cell starts there, lies inside the
/// mask, covers only cells with its key, and cannot grow further.
pub proof fn lemma_grown(mask: Seq<Option<FaceKey>>, size: int, n: int, key: FaceKey)
    requires
        0 <= size <= i32::MAX,
        0 <= n < size * size,
        mask[n] == Some(key),
    ensures
        ({
            let r = grown(mask, size, n, key);
            &&& r.in_mask(size)
            &&& r.i == n % size
            &&& r.j == n / size
            &&& r.j * size + r.i == n
            &&& n + r.w <= size * size
            &&& r.w == run_width(mask, size, n % size, n / size, key)
            &&& r.h == run_height(mask, size, n % size, r.w as int, n / size, key)
            &&& r.key == key
            &&& r.i + r.w < size ==> cell(mask, size, r.i + r.w, r.j as int) != Some(key)
            &&& r.j + r.h < size ==> !row_holds(
                mask,
                size,
                r.i as int,
                r.w as int,
                r.j + r.h,
                key,
            )
        }),
        forall|i: int, j: int|
            grown(mask, size, n, key).covers(i, j) ==> #[trigger] cell(mask, size, i, j) == Some(
                key,
            ),
{
    lemma_cell_of(n, size);
    let i = n % size;
    let j = n / size;
    lemma_run_width(mask, size, i, j, key);
    let w = run_width(mask, size, i, j, key);
    assert(cell(mask, size, i, j) == Some(key));
    assert(w >= 1);
    lemma_run_height(mask, size, i, w, j, key);
    assert(row_holds(mask, size, i, w, j, key));
    let r = grown(mask, size, n, key);
    assert forall|ci: int, cj: int| r.covers(ci, cj) implies #[trigger] cell(mask, size, ci, cj)
        == Some(key) by {
        assert(row_holds(mask, size, i, w, cj, key));
    }
    lemma_place(i + w - 1, j, size);
}

/// What holds of the rectangles that a scan from cell `n` on finds.
pub open spec fn tiles(mask: Seq<Option<FaceKey>>, size: int, n: int, rects: Seq<Rect>) -> bool {
    &&& forall|q: int|
        0 <= q < rects.len() ==> (#[trigger] rects[q]).in_mask(size) && rects[q].j * size
            + rects[q].i >= n
    &&& forall|q: int, i: int, j: int|
        0 <= q < rects.len() && (#[trigger] rects[q].covers(i, j)) ==> cell(mask, size, i, j)
            == Some(rects[q].key)
    &&& forall|i: int, j: int|
        0 <= i < size && 0 <= j < size && (#[trigger] cell(mask, size, i, j)) is Some ==> exists|
            q: int,
        |
            0 <= q < rects.len() && (#[trigger] rects[q]).covers(i, j)
    &&& forall|q: int, p: int, i: int, j: int|
        0 <= q < rects.len() && 0 <= p < rects.len() && (#[trigger] rects[q].covers(i, j))
            && (#[trigger] rects[p].covers(i, j)) ==> q == p
    &&& forall|q: int, p: int|
        0 <= q < rects.len() && 0 <= p < rects.len() && q != p ==> !(#[trigger] rects[q].joins(
            #[trigger] rects[p],
        ))
}

/// Taking a rectangle out empties its cells and leaves the others.
proof fn lemma_cleared(mask: Seq<Option<FaceKey>>, size: int, r: Rect)
    requires
        mask.len() == size * size,
    ensures
        forall|i: int, j: int|
            0 <= i < size && 0 <= j < size ==> #[trigger] cell(cleared(mask, size, r), size, i, j)
                == (if r.covers(i, j) {
                None
            } else {
                cell(mask, size, i, j)
            }),
{
    assert forall|i: int, j: int| 0 <= i < size && 0 <= j < size implies #[trigger] cell(
        cleared(mask, size, r),
        size,
        i,
        j,
    ) == (if r.covers(i, j) {
        None
    } else {
        cell(mask, size, i, j)
    }) by {
        lemma_place(i, j, size);
    }
}

proof fn lemma_tiles(mask: Seq<Option<FaceKey>>, size: int, n: int)
    requires
        0 <= size <= i32::MAX,
        mask.len() == size * size,
        0 <= n <= size * size,
        forall|c: int| 0 <= c < n ==> (#[trigger] mask[c]) is None,
    ensures
        tiles(mask, size, n, greedy(mask, size, n)),
    decreases size * size - n,
{
    let rects = greedy(mask, size, n);
    if n == size * size {
        assert forall|i: int, j: int|
            0 <= i < size && 0 <= j < size && (#[trigger] cell(mask, size, i, j)) is Some implies false by {
            lemma_place(i, j, size);
            assert(mask[j * size + i] is None);
        }
    } else if mask[n] is None {
        lemma_tiles(mask, size, n + 1);
    } else {
        let key = mask[n]->0;
        lemma_grown(mask, size, n, key);
        let r = grown(mask, size, n, key);
        let rest = cleared(mask, size, r);
        let tail = greedy(rest, size, n + r.w);
        assert forall|c: int| 0 <= c < n + r.w implies (#[trigger] rest[c]) is None by {
            if c >= n {
                lemma_place(r.i + (c - n), r.j as int, size);
                assert(c / size == r.j && r.i <= c % size < r.i + r.w);
            }
        }
        lemma_tiles(rest, size, n + r.w);
        assert(rects =~= seq![r] + tail);
        lemma_cleared(mask, size, r);
        assert forall|q: int| 0 <= q < rects.len() implies (#[trigger] rects[q]).in_mask(size)
            && rects[q].j * size + rects[q].i >= n by {
            if q > 0 {
                assert(rects[q] == tail[q - 1]);
            }
        }
        assert forall|q: int, i: int, j: int|
            0 <= q < rects.len() && (#[trigger] rects[q].covers(i, j)) implies cell(
            mask,
            size,
            i,
            j,
        ) == Some(rects[q].key) && (q > 0 ==> !r.covers(i, j)) by {
            if q > 0 {
                assert(rects[q] == tail[q - 1]);
                assert(tail[q - 1].covers(i, j));
                assert(tail[q - 1].in_mask(size));
                assert(cell(rest, size, i, j) == Some(tail[q - 1].key));
            }
        }
        assert forall|i: int, j: int|
            0 <= i < size && 0 <= j < size && (#[trigger] cell(mask, size, i, j)) is Some implies exists|
            q: int,
        |
            0 <= q < rects.len() && (#[trigger] rects[q]).covers(i, j) by {
            if r.covers(i, j) {
                assert(rects[0].covers(i, j));
            } else {
                assert(cell(rest, size, i, j) is Some);
                let q = choose|q: int| 0 <= q < tail.len() && (#[trigger] tail[q]).covers(i, j);
                assert(rects[q + 1] == tail[q]);
            }
        }
        assert forall|q: int, p: int, i: int, j: int|
            0 <= q < rects.len() && 0 <= p < rects.len() && (#[trigger] rects[q].covers(i, j)) && (
            #[trigger] rects[p].covers(i, j)) implies q == p by {
            if q > 0 && p > 0 {
                assert(rects[q] == tail[q - 1] && rects[p] == tail[p - 1]);
                assert(tail[q - 1].covers(i, j) && tail[p - 1].covers(i, j));
            }
        }
        assert forall|t: int| 0 <= t < tail.len() implies !r.joins(#[trigger] tail[t])
            && !tail[t].joins(r) by {
            lemma_grown_joins_none(mask, size, n, key, tail, t);
        }
        assert forall|q: int, p: int|
            0 <= q < rects.len() && 0 <= p < rects.len() && q != p implies !(#[trigger] rects[q].joins(
            #[trigger] rects[p],
        )) by {
            if q > 0 && p > 0 {
                assert(rects[q] == tail[q - 1] && rects[p] == tail[p - 1]);
            } else if q > 0 {
                assert(rects[q] == tail[q - 1]);
            } else {
                assert(rects[p] == tail[p - 1]);
            }
        }
    }
}

/// A rectangle that was found after another grew cannot extend that other
/// one: the growth would not have stopped there.
proof fn lemma_grown_joins_none(
    mask: Seq<Option<FaceKey>>,
    size: int,
    n: int,
    key: FaceKey,
    tail: Seq<Rect>,
    t: int,
)
    requires
        0 <= size <= i32::MAX,
        mask.len() == size * size,
        0 <= n < size * size,
        mask[n] == Some(key),
        0 <= t < tail.len(),
        tiles(
            cleared(mask, size, grown(mask, size, n, key)),
            size,
            n + grown(mask, size, n, key).w,
            tail,
        ),
    ensures
        !grown(mask, size, n, key).joins(tail[t]),
        !tail[t].joins(grown(mask, size, n, key)),
{
    lemma_grown(mask, size, n, key);
    let r = grown(mask, size, n, key);
    lemma_cleared(mask, size, r);
    let rest = cleared(mask, size, r);
    let o = tail[t];
    assert(o.in_mask(size) && o.j * size + o.i >= n + r.w);
    if r.joins(o) || o.joins(r) {
        if r.j == o.j && r.h == o.h {
            assert(o.i == r.i + r.w);
            assert(tail[t].covers(o.i as int, o.j as int));
            assert(cell(rest, size, o.i as int, o.j as int) == Some(key));
        } else {
            let above = o.j as int;
            let below = r.j as int;
            assert(above < below ==> above * size <= below * size) by (nonlinear_arith)
                requires
                    0 <= size,
            ;
            assert(o.j == r.j + r.h);
            assert forall|c: int| r.i <= c < r.i + r.w implies #[trigger] cell(
                mask,
                size,
                c,
                o.j as int,
            ) == Some(key) by {
                assert(tail[t].covers(c, o.j as int));
                assert(cell(rest, size, c, o.j as int) == Some(key));
            }
            assert(row_holds(mask, size, r.i as int, r.w as int, r.j + r.h, key));
        }
    }
}

/// The rectangles of a mask tile it: each lies inside the mask and covers
/// only cells with its own key, every filled cell is covered by exactly one
/// of them, no empty cell is covered, and no two of them could be joined
/// into one.
pub proof fn law_greedy_tiles(mask: Seq<Option<FaceKey>>, size: int)
    requires
        0 <= size <= i32::MAX,
        mask.len() == size * size,
    ensures
        tiles(mask, size, 0, greedy(mask, size, 0)),
        forall|q: int, i: int, j: int|
            0 <= q < greedy(mask, size, 0).len() && cell(mask, size, i, j) is None ==> !(
            #[trigger] greedy(mask, size, 0)[q].covers(i, j)),
{
    assert(0 <= size * size) by (nonlinear_arith)
        requires
            0 <= size,
    ;
    lemma_tiles(mask, size, 0);
}

/// Merges the faces of a mask of `size` by `size` cells into rectangles and
/// empties the mask.
pub fn merge_mask(mask: &mut Vec<Option<FaceKey>>, size: i32) -> (rects: Vec<Rect>)
    requires
        0 <= size,
        old(mask)@.len() == size * size,
    ensures
        rects@ == greedy(old(mask)@, size as int, 0),
        rects@.len() <= size * size,
        final(mask)@.len() == size * size,
        forall|c: int| 0 <= c < size * size ==> (#[trigger] final(mask)@[c]) is None,
{
    let mut rects: Vec<Rect> = Vec::new();
    let mut n: usize = 0;
    let cells: usize = mask.len();
    while n < cells
        invariant
            0 <= size,
            n <= cells,
            cells == size * size,
            mask@.len() == cells,
            greedy(old(mask)@, size as int, 0) == rects@ + greedy(mask@, size as int, n as int),
            rects@.len() <= n,
            forall|c: int| 0 <= c < n ==> (#[trigger] mask@[c]) is None,
        decreases cells - n,
    {
        match mask[n] {
            None => {
                n += 1;
            },
            Some(key) => {
                proof {
                    lemma_grown(mask@, size as int, n as int, key);
                }
                let ghost before = mask@;
                let r = grow(mask, size, n, key);
                clear(mask, size, r);
                proof {
                    assert(mask@ =~= cleared(before, size as int, r));
                    assert(greedy(before, size as int, n as int) == seq![r] + greedy(
                        mask@,
                        size as int,
                        n + r.w,
                    ));
                    assert(rects@.push(r) + greedy(mask@, size as int, n + r.w) =~= rects@ + (
                    seq![r] + greedy(mask@, size as int, n + r.w)));
                    assert forall|c: int| 0 <= c < n + r.w implies (#[trigger] mask@[c]) is None by {
                        if c >= n {
                            lemma_place(r.i + (c - n), r.j as int, size as int);
                        }
                    }
                }
                rects.push(r);
                n += r.w as usize;
            },
        }
    }
    assert(rects@ + greedy(mask@, size as int, n as int) =~= rects@);
    rects
}

/// Grows a rectangle from the filled cell `n`.
fn grow(mask: &Vec<Option<FaceKey>>, size: i32, n: usize, key: FaceKey) -> (r: Rect)
    requires
        0 <= size,
        mask@.len() == size * size,
        n < mask@.len(),
        mask@[n as int] == Some(key),
    ensures
        r == grown(mask@, size as int, n as int, key),
{
    let side: usize = size as usize;
    proof {
        lemma_grown(mask@, size as int, n as int, key);
        lemma_cell_of(n as int, size as int);
    }
    let i: usize = n % side;
    let j: usize = n / side;
    let mut w: usize = 1;
    assert(cell(mask@, size as int, i as int, j as int) == Some(key));
    while i + w < side && holds(mask, size, i + w, j, key)
        invariant
            side == size,
            mask@.len() == size * size,
            i < side,
            j < side,
            1 <= w <= side - i,
            run_width(mask@, size as int, i as int, j as int, key) == w + run_width(
                mask@,
                size as int,
                i + w,
                j as int,
                key,
            ),
        decreases side - w,
    {
        w += 1;
    }
    assert(w == run_width(mask@, size as int, i as int, j as int, key));
    let mut h: usize = 0;
    while j + h < side && row_equals(mask, size, i, w, j + h, key)
        invariant
            side == size,
            mask@.len() == size * size,
            i + w <= side,
            j < side,
            h <= side - j,
            run_height(mask@, size as int, i as int, w as int, j as int, key) == h + run_height(
                mask@,
                size as int,
                i as int,
                w as int,
                j + h,
                key,
            ),
        decreases side - h,
    {
        h += 1;
    }
    Rect { i: i as i32, j: j as i32, w: w as i32, h: h as i32, key }
}

/// Whether cell `(i, j)` holds `key`.
fn holds(mask: &Vec<Option<FaceKey>>, size: i32, i: usize, j: usize, key: FaceKey) -> (b: bool)
    requires
        mask@.len() == size * size,
        i < size,
        j < size,
    ensures
        b == (cell(mask@, size as int, i as int, j as int) == Some(key)),
{
    let at: usize = place(mask, size, i, j);
    match mask[at] {
        Some(found) => found == key,
        None => false,
    }
}

/// Where a cell is.
fn place(mask: &Vec<Option<FaceKey>>, size: i32, i: usize, j: usize) -> (at: usize)
    requires
        mask@.len() == size * size,
        i < size,
        j < size,
    ensures
        at == j * size + i,
        at < mask@.len(),
{
    let cells: usize = mask.len();
    proof {
        lemma_place(i as int, j as int, size as int);
        assert(0 <= j * size) by (nonlinear_arith)
            requires
                0 <= j,
                0 < size,
        ;
        assert(j * size + i < cells);
    }
    j * (size as usize) + i
}

/// Whether columns `i..i + w` of row `j` all hold `key`.
fn row_equals(
    mask: &Vec<Option<FaceKey>>,
    size: i32,
    i: usize,
    w: usize,
    j: usize,
    key: FaceKey,
) -> (b: bool)
    requires
        mask@.len() == size * size,
        i + w <= size,
        j < size,
    ensures
        b == row_holds(mask@, size as int, i as int, w as int, j as int, key),
{
    let mut k: usize = 0;
    while k < w
        invariant
            mask@.len() == size * size,
            i + w <= size,
            j < size,
            k <= w,
            row_holds(mask@, size as int, i as int, k as int, j as int, key),
        decreases w - k,
    {
        if !holds(mask, size, i + k, j, key) {
            assert(cell(mask@, size as int, i + k, j as int) != Some(key));
            return false;
        }
        k += 1;
    }
    true
}

/// Takes a rectangle out of the mask.
fn clear(mask: &mut Vec<Option<FaceKey>>, size: i32, r: Rect)
    requires
        old(mask)@.len() == size * size,
        r.in_mask(size as int),
    ensures
        final(mask)@ == cleared(old(mask)@, size as int, r),
{
    let ghost before = mask@;
    let mut dj: i32 = 0;
    while dj < r.h
        invariant
            r.in_mask(size as int),
            0 <= dj <= r.h,
            mask@.len() == size * size,
            before.len() == size * size,
            mask@ =~= cleared(before, size as int, Rect { h: dj, ..r }),
        decreases r.h - dj,
    {
        let mut di: i32 = 0;
        while di < r.w
            invariant
                r.in_mask(size as int),
                0 <= dj < r.h,
                0 <= di <= r.w,
                mask@.len() == size * size,
                before.len() == size * size,
                forall|c: int|
                    0 <= c < size * size ==> #[trigger] mask@[c] == (if (Rect {
                        h: dj,
                        ..r
                    }).covers(c % size as int, c / size as int) || (Rect {
                        j: (r.j + dj) as i32,
                        h: 1,
                        w: di,
                        ..r
                    }).covers(c % size as int, c / size as int) {
                        None
                    } else {
                        before[c]
                    }),
            decreases r.w - di,
        {
            let at: usize = place(mask, size, (r.i + di) as usize, (r.j + dj) as usize);
            let ghost held = mask@;
            mask.set(at, None);
            proof {
                lemma_place(r.i + di, r.j + dj, size as int);
                assert forall|c: int| 0 <= c < size * size implies #[trigger] mask@[c] == (if (Rect {
                    h: dj,
                    ..r
                }).covers(c % size as int, c / size as int) || (Rect {
                    j: (r.j + dj) as i32,
                    h: 1,
                    w: (di + 1) as i32,
                    ..r
                }).covers(c % size as int, c / size as int) {
                    None
                } else {
                    before[c]
                }) by {
                    lemma_cell_of(c, size as int);
                    assert(c != at ==> mask@[c] == held[c]);
                }
            }
            di += 1;
        }
        dj += 1;
    }
}

proof fn lemma_empty_cells_are_passed(mask: Seq<Option<FaceKey>>, size: int, a: int, b: int)
    requires
        0 <= a <= b <= size * size,
        forall|m: int| a <= m < b ==> (#[trigger] mask[m]) is None,
    ensures
        greedy(mask, size, a) == greedy(mask, size, b),
    decreases b - a,
{
    if a < b {
        lemma_empty_cells_are_passed(mask, size, a + 1, b);
    }
}

/// The first rectangle starts at the first filled cell, row by row. It is as
/// wide as the row goes on with the same key, then as high as whole rows of
/// that width do. The other rectangles are those of the mask without it.
pub proof fn law_rectangles_are_wide_before_high(
    mask: Seq<Option<FaceKey>>,
    size: int,
    n: int,
    key: FaceKey,
)
    requires
        0 <= size <= i32::MAX,
        mask.len() == size * size,
        0 <= n < size * size,
        mask[n] == Some(key),
        forall|m: int| 0 <= m < n ==> (#[trigger] mask[m]) is None,
    ensures
        ({
            let rects = greedy(mask, size, 0);
            let r = rects[0];
            &&& rects.len() > 0
            &&& r.key == key
            &&& r.j * size + r.i == n
            &&& 0 <= r.i && 1 <= r.w && r.i + r.w <= size
            &&& 0 <= r.j && 1 <= r.h && r.j + r.h <= size
            &&& forall|a: int, b: int|
                r.i <= a < r.i + r.w && r.j <= b < r.j + r.h ==> #[trigger] mask[b * size + a]
                    == Some(key)
            &&& r.i + r.w < size ==> mask[r.j * size + (r.i + r.w)] != Some(key)
            &&& r.j + r.h < size ==> exists|a: int|
                r.i <= a < r.i + r.w && #[trigger] mask[(r.j + r.h) * size + a] != Some(key)
            &&& rects.skip(1) == greedy(
                Seq::new(
                    mask.len(),
                    |c: int|
                        {
                            if r.i <= c % size < r.i + r.w && r.j <= c / size < r.j + r.h {
                                None
                            } else {
                                mask[c]
                            }
                        },
                ),
                size,
                0,
            )
        }),
{
    lemma_empty_cells_are_passed(mask, size, 0, n);
    lemma_grown(mask, size, n, key);
    let r = grown(mask, size, n, key);
    let rects = greedy(mask, size, 0);
    let rest = cleared(mask, size, r);
    assert(rects == seq![r] + greedy(rest, size, n + r.w));
    assert(rects.skip(1) =~= greedy(rest, size, n + r.w));
    assert forall|a: int, b: int|
        r.i <= a < r.i + r.w && r.j <= b < r.j + r.h implies #[trigger] mask[b * size + a] == Some(
        key,
    ) by {
        assert(r.covers(a, b));
        assert(cell(mask, size, a, b) == Some(key));
    }
    if r.i + r.w < size {
        assert(cell(mask, size, r.i + r.w, r.j as int) != Some(key));
    }
    if r.j + r.h < size {
        let row = r.j + r.h;
        assert(!row_holds(mask, size, r.i as int, r.w as int, row, key));
        let a = choose|a: int|
            r.i <= a < r.i + r.w && #[trigger] cell(mask, size, a, row) != Some(key);
        assert(mask[(r.j + r.h) * size + a] != Some(key));
    }
    assert forall|m: int| 0 <= m < n + r.w implies (#[trigger] rest[m]) is None by {
        if m >= n {
            let a = r.i + (m - n);
            lemma_place(a, r.j as int, size);
            assert(r.covers(m % size, m / size));
        } else {
            assert(mask[m] is None);
        }
    }
    lemma_empty_cells_are_passed(rest, size, 0, n + r.w);
    assert(rest =~= Seq::new(
        mask.len(),
        |c: int|
            {
                if r.i <= c % size < r.i + r.w && r.j <= c / size < r.j + r.h {
                    None
                } else {
                    mask[c]
                }
            },
    ));
}

} // verus!

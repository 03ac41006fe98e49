use vstd::prelude::*;

use crate::components::{Position, Sprite};
use vstd::arithmetic::div_mod::{lemma_fundamental_div_mod, lemma_mod_bound};

verus! {

/// Column of the target where the sprite's column 0 lands.
pub open spec fn origin_x(pos: Position, sprite: Sprite) -> int {
    pos.x - sprite.anchor_x
}

/// Row of the target where the sprite's row 0 lands.
pub open spec fn origin_y(pos: Position, sprite: Sprite) -> int {
    pos.y - sprite.anchor_y
}

/// Whether target pixel (`x`, `y`) is covered by `sprite` placed at `pos`.
pub open spec fn covers(pos: Position, sprite: Sprite, x: int, y: int) -> bool {
    let sx = x - origin_x(pos, sprite);
    let sy = y - origin_y(pos, sprite);
    0 <= sx < sprite.width && 0 <= sy < sprite.height
}

/// The value of target pixel (`x`, `y`) once `sprite` has been drawn at `pos`: the
/// sprite's pixel where it covers the target, the target's own pixel elsewhere.
pub open spec fn blit_pixel(target: Sprite, pos: Position, sprite: Sprite, x: int, y: int) -> u32 {
    if covers(pos, sprite, x, y) {
        sprite.pixel(x - origin_x(pos, sprite), y - origin_y(pos, sprite))
    } else {
        target.pixel(x, y)
    }
}

/// `target` is `before` with `sprite` drawn at `pos`: same size and anchor, and each pixel
/// as `blit_pixel` gives it.
pub open spec fn blitted(before: Sprite, pos: Position, sprite: Sprite, after: Sprite) -> bool {
    &&& after.width == before.width
    &&& after.height == before.height
    &&& after.anchor_x == before.anchor_x
    &&& after.anchor_y == before.anchor_y
    &&& after.data@.len() == before.data@.len()
    &&& forall|x: int, y: int|
        0 <= x < before.width && 0 <= y < before.height ==> #[trigger] after.pixel(x, y)
            == blit_pixel(before, pos, sprite, x, y)
}

proof fn lemma_index_bound(w: int, h: int, x: int, y: int)
    requires
        0 <= x < w,
        0 <= y < h,
    ensures
        0 <= y * w + x < w * h,
        0 <= y * w + x < h * w,
{
    assert(0 <= y * w + x < w * h) by (nonlinear_arith)
        requires
            0 <= x < w,
            0 <= y < h,
    ;
    assert(w * h == h * w) by (nonlinear_arith);
}

proof fn lemma_index_distinct(w: int, x1: int, y1: int, x2: int, y2: int)
    requires
        0 <= x1 < w,
        0 <= x2 < w,
        0 <= y1,
        0 <= y2,
        y1 * w + x1 == y2 * w + x2,
    ensures
        x1 == x2,
        y1 == y2,
{
    if y1 < y2 {
        assert(y1 * w + w <= y2 * w) by (nonlinear_arith)
            requires
                y1 < y2,
                0 <= w,
        ;
    } else if y2 < y1 {
        assert(y2 * w + w <= y1 * w) by (nonlinear_arith)
            requires
                y2 < y1,
                0 <= w,
        ;
    }
}

/// Two buffers of one size that agree on every pixel hold the same data.
pub proof fn lemma_same_pixels(a: Sprite, b: Sprite)
    requires
        a.wf(),
        b.width == a.width,
        b.height == a.height,
        b.data@.len() == a.data@.len(),
        forall|x: int, y: int|
            0 <= x < a.width && 0 <= y < a.height ==> #[trigger] a.pixel(x, y) == b.pixel(x, y),
    ensures
        a.data@ == b.data@,
{
    let w = a.width as int;
    let h = a.height as int;
    assert forall|i: int| 0 <= i < a.data@.len() implies #[trigger] a.data@[i] == b.data@[i] by {
        if w == 0 {
            assert(w * h == 0);
        }
        lemma_fundamental_div_mod(i, w);
        lemma_mod_bound(i, w);
        let x = i % w;
        let y = i / w;
        assert(0 <= y < h) by (nonlinear_arith)
            requires
                i == w * y + x,
                0 <= x < w,
                0 <= i < w * h,
        ;
        assert(y * w + x == i) by (nonlinear_arith)
            requires
                i == w * y + x,
        ;
        assert(a.pixel(x, y) == b.pixel(x, y));
    }
    assert(a.data@ =~= b.data@);
}

/// Drawing the same sprite at the same position a second time changes nothing: pixels are
/// overwritten, never accumulated.
pub proof fn lemma_blit_idempotent(t0: Sprite, pos: Position, sprite: Sprite, t1: Sprite, t2: Sprite)
    requires
        t0.wf(),
        blitted(t0, pos, sprite, t1),
        blitted(t1, pos, sprite, t2),
    ensures
        t2.data@ == t1.data@,
        t2.width == t1.width && t2.height == t1.height,
{
    assert forall|x: int, y: int| 0 <= x < t1.width && 0 <= y < t1.height implies #[trigger] t1.pixel(x, y)
        == t2.pixel(x, y) by {
        assert(t1.pixel(x, y) == blit_pixel(t0, pos, sprite, x, y));
        assert(t2.pixel(x, y) == blit_pixel(t1, pos, sprite, x, y));
    }
    lemma_same_pixels(t1, t2);
}

/// Copies `sprite`, placed at `pos`, onto `target`, overwriting the covered pixels that lie
/// inside the target and leaving the rest. A sprite wholly outside the target changes
/// nothing. Either buffer not holding `width * height` pixels makes this a no-op.
pub fn draw_sprite(target: &mut Sprite, pos: &Position, sprite: &Sprite)
    ensures
        old(target).wf() && sprite.wf() ==> blitted(*old(target), *pos, *sprite, *final(target)),
        !(old(target).wf() && sprite.wf()) ==> *final(target) == *old(target),
{
    if !target.is_well_formed() || !sprite.is_well_formed() {
        return;
    }
    let ghost t0 = *target;
    let slen: usize = sprite.data.len();
    let tlen: usize = target.data.len();
    let tw: i64 = target.width as i64;
    let th: i64 = target.height as i64;
    let sw: i64 = sprite.width as i64;
    let sh: i64 = sprite.height as i64;
    let ox: i64 = pos.x as i64 - sprite.anchor_x as i64;
    let oy: i64 = pos.y as i64 - sprite.anchor_y as i64;
    let x0: i64 = if ox > 0 { ox } else { 0 };
    let x1: i64 = if ox + sw < tw { ox + sw } else { tw };
    let y0: i64 = if oy > 0 { oy } else { 0 };
    let y1: i64 = if oy + sh < th { oy + sh } else { th };
    if x0 >= x1 || y0 >= y1 {
        // Wholly outside the target.
        return;
    }
    let mut ty: i64 = y0;
    while ty < y1
        invariant
            0 <= y0 <= ty <= y1 <= th,
            0 <= x0 < x1 <= tw,
            tw == t0.width,
            th == t0.height,
            sw == sprite.width,
            sh == sprite.height,
            ox == origin_x(*pos, *sprite),
            oy == origin_y(*pos, *sprite),
            x0 == (if ox > 0 { ox } else { 0 }),
            x1 == (if ox + sw < tw { ox + sw } else { tw as int }),
            y0 == (if oy > 0 { oy } else { 0 }),
            y1 == (if oy + sh < th { oy + sh } else { th as int }),
            t0.wf(),
            sprite.wf(),
            slen == sprite.data@.len(),
            tlen == t0.data@.len(),
            target.width == t0.width,
            target.height == t0.height,
            target.anchor_x == t0.anchor_x,
            target.anchor_y == t0.anchor_y,
            target.data@.len() == t0.data@.len(),
            forall|px: int, py: int|
                0 <= px < tw && 0 <= py < th ==> #[trigger] target.pixel(px, py) == (if y0 <= py
                    < ty && x0 <= px < x1 {
                    sprite.pixel(px - ox, py - oy)
                } else {
                    t0.pixel(px, py)
                }),
        decreases y1 - ty,
    {
        let mut tx: i64 = x0;
        while tx < x1
            invariant
                0 <= y0 <= ty < y1 <= th,
                0 <= x0 <= tx <= x1 <= tw,
                tw == t0.width,
                th == t0.height,
                sw == sprite.width,
                sh == sprite.height,
                ox == origin_x(*pos, *sprite),
                oy == origin_y(*pos, *sprite),
                x0 == (if ox > 0 { ox } else { 0 }),
                x1 == (if ox + sw < tw { ox + sw } else { tw as int }),
                y0 == (if oy > 0 { oy } else { 0 }),
                y1 == (if oy + sh < th { oy + sh } else { th as int }),
                t0.wf(),
                sprite.wf(),
                slen == sprite.data@.len(),
                tlen == t0.data@.len(),
                target.width == t0.width,
                target.height == t0.height,
                target.anchor_x == t0.anchor_x,
                target.anchor_y == t0.anchor_y,
                target.data@.len() == t0.data@.len(),
                forall|px: int, py: int|
                    0 <= px < tw && 0 <= py < th ==> #[trigger] target.pixel(px, py) == (if (y0
                        <= py < ty && x0 <= px < x1) || (py == ty && x0 <= px < tx) {
                        sprite.pixel(px - ox, py - oy)
                    } else {
                        t0.pixel(px, py)
                    }),
            decreases x1 - tx,
        {
            let sx: i64 = tx - ox;
            let sy: i64 = ty - oy;
            proof {
                lemma_index_bound(sw as int, sh as int, sx as int, sy as int);
                lemma_index_bound(tw as int, th as int, tx as int, ty as int);
            }
            let si: usize = (sy as usize) * (sprite.width as usize) + (sx as usize);
            let di: usize = (ty as usize) * (target.width as usize) + (tx as usize);
            let v: u32 = sprite.data[si];
            let ghost tb = *target;
            target.data.set(di, v);
            proof {
                assert forall|px: int, py: int| 0 <= px < tw && 0 <= py < th implies #[trigger] target.pixel(px, py) == (if (y0
                        <= py < ty && x0 <= px < x1) || (py == ty && x0 <= px < tx + 1) {
                        sprite.pixel(px - ox, py - oy)
                    } else {
                        t0.pixel(px, py)
                    }) by {
                    lemma_index_bound(tw as int, th as int, px, py);
                    assert(tb.pixel(px, py) == (if (y0 <= py < ty && x0 <= px < x1) || (py == ty
                        && x0 <= px < tx) {
                        sprite.pixel(px - ox, py - oy)
                    } else {
                        t0.pixel(px, py)
                    }));
                    if px != tx || py != ty {
                        if py * tw + px == ty * tw + tx {
                            lemma_index_distinct(tw as int, px, py, tx as int, ty as int);
                        }
                    }
                }
            }
            tx = tx + 1;
        }
        ty = ty + 1;
    }
}

} // verus!

use vstd::prelude::*;

use crate::components::{Position, RenderTarget, Sprite, TimeResources, WobbleMove};
use crate::compositor::{blitted, covers, draw_sprite, origin_x, origin_y};
use crate::entity::{ComponentKind, ComponentValue, Entity};
use crate::search::{
    any_with, first_with, index_of_first_with, is_first_with, lemma_first_exists, lemma_first_kept,
};

verus! {

/// The bit pattern the render target is cleared to: opaque black.
pub const BACKGROUND: u32 = 0xFF00_0000;

/// Why a frame step could not run.
#[derive(Clone, Copy, Debug, PartialEq, Eq, Structural)]
pub enum FrameError {
    NoRenderTarget,
    RenderTargetWithoutSprite,
    MissingTimeResources,
}

/// The sprite that `e` carries, if any.
pub open spec fn sprite_in(e: Entity) -> Option<Sprite> {
    match e.slot(ComponentKind::Sprite) {
        Some(ComponentValue::Sprite(s)) => Some(s),
        _ => None,
    }
}

/// The position that `e` carries, if any.
pub open spec fn position_in(e: Entity) -> Option<Position> {
    match e.slot(ComponentKind::Position) {
        Some(ComponentValue::Position(p)) => Some(p),
        _ => None,
    }
}

/// The wobble movement that `e` carries, if any.
pub open spec fn wobble_in(e: Entity) -> Option<WobbleMove> {
    match e.slot(ComponentKind::WobbleMove) {
        Some(ComponentValue::WobbleMove(w)) => Some(w),
        _ => None,
    }
}

/// The frame timing that `e` carries, if any.
pub open spec fn time_in(e: Entity) -> Option<TimeResources> {
    match e.slot(ComponentKind::Time) {
        Some(ComponentValue::Time(t)) => Some(t),
        _ => None,
    }
}

/// The error a step that needs the render target's sprite reports on `s`, if any.
pub open spec fn render_target_error(s: Seq<Entity>) -> Option<FrameError> {
    if !any_with(s, ComponentKind::RenderTarget) {
        Some(FrameError::NoRenderTarget)
    } else if sprite_in(s[first_with(s, ComponentKind::RenderTarget)]).is_none() {
        Some(FrameError::RenderTargetWithoutSprite)
    } else {
        None
    }
}

/// The render target's sprite in `s`.
pub open spec fn target_sprite(s: Seq<Entity>) -> Sprite {
    sprite_in(s[first_with(s, ComponentKind::RenderTarget)]).unwrap()
}

/// `after` is `before` with every pixel set to `BACKGROUND`.
pub open spec fn cleared(before: Sprite, after: Sprite) -> bool {
    &&& after.width == before.width
    &&& after.height == before.height
    &&& after.anchor_x == before.anchor_x
    &&& after.anchor_y == before.anchor_y
    &&& after.data@.len() == before.data@.len()
    &&& forall|i: int| 0 <= i < after.data@.len() ==> #[trigger] after.data@[i] == BACKGROUND
}

/// `after` differs from `before` at most in entity `i`, which differs at most in kind `k`.
pub open spec fn changed_only(
    before: Seq<Entity>,
    after: Seq<Entity>,
    i: int,
    k: ComponentKind,
) -> bool {
    &&& after.len() == before.len()
    &&& forall|j: int| 0 <= j < before.len() && j != i ==> #[trigger] after[j] == before[j]
    &&& after[i].same_except(before[i], k)
}

fn fill_sprite(s: &mut Sprite, value: u32)
    ensures
        final(s).width == old(s).width,
        final(s).height == old(s).height,
        final(s).anchor_x == old(s).anchor_x,
        final(s).anchor_y == old(s).anchor_y,
        final(s).data@.len() == old(s).data@.len(),
        forall|i: int| 0 <= i < final(s).data@.len() ==> #[trigger] final(s).data@[i] == value,
{
    let n: usize = s.data.len();
    let mut i: usize = 0;
    while i < n
        invariant
            n == s.data@.len(),
            i <= n,
            s.width == old(s).width,
            s.height == old(s).height,
            s.anchor_x == old(s).anchor_x,
            s.anchor_y == old(s).anchor_y,
            n == old(s).data@.len(),
            forall|j: int| 0 <= j < i ==> #[trigger] s.data@[j] == value,
        decreases n - i,
    {
        s.data.set(i, value);
        i = i + 1;
    }
}

/// `after` is `before` with the render target's sprite cleared.
pub open spec fn clear_done(before: Seq<Entity>, after: Seq<Entity>) -> bool {
    let i = first_with(before, ComponentKind::RenderTarget);
    &&& changed_only(before, after, i, ComponentKind::Sprite)
    &&& sprite_in(after[i]).is_some()
    &&& cleared(target_sprite(before), sprite_in(after[i]).unwrap())
}

/// Clears the render target's sprite to `BACKGROUND`. A render target, with a sprite, must
/// exist: `check_render_target` tells a caller whether it does.
pub fn sys_clear_render_target(entities: &mut Vec<Entity>)
    requires
        render_target_error(old(entities)@).is_none(),
    ensures
        clear_done(old(entities)@, final(entities)@),
{
    let i = match index_of_first_with::<RenderTarget>(entities) {
        Some(i) => i,
        None => return,
    };
    proof {
        entities@[i as int].lemma_slot_kind(ComponentKind::Sprite);
    }
    let ghost before = entities@;
    match entities[i].get_component_mut::<Sprite>() {
        Some(s) => fill_sprite(s, BACKGROUND),
        None => {},
    }
    proof {
        assert forall|j: int| 0 <= j < before.len() && j != i implies #[trigger] entities@[j]
            == before[j] by {}
    }
}


/// `a - b`, or zero where `b` is later than `a`.
pub open spec fn elapsed(a: u64, b: u64) -> u64 {
    if a >= b {
        (a - b) as u64
    } else {
        0
    }
}

/// The timing after a tick at instant `now`.
pub open spec fn advanced(t: TimeResources, now: u64) -> TimeResources {
    TimeResources {
        start_time_instant: t.start_time_instant,
        last_frame_instant: t.this_frame_instant,
        this_frame_instant: now,
        delta_time: elapsed(now, t.this_frame_instant),
        total_time: elapsed(now, t.start_time_instant),
    }
}

/// Advances the frame timing of `resources` to the instant `now` (nanoseconds on the
/// monotonic clock): the last frame becomes the previous one, and `delta_time` and
/// `total_time` are measured up to `now`. The entity must carry the timing component.
pub fn sys_time_resources(resources: &mut Entity, now: u64)
    requires
        time_in(*old(resources)).is_some(),
    ensures
        time_in(*final(resources)) == Some(advanced(time_in(*old(resources)).unwrap(), now)),
        final(resources).same_except(*old(resources), ComponentKind::Time),
{
    match resources.get_component_mut::<TimeResources>() {
        Some(t) => {
            t.last_frame_instant = t.this_frame_instant;
            t.this_frame_instant = now;
            t.delta_time = now.saturating_sub(t.last_frame_instant);
            t.total_time = now.saturating_sub(t.start_time_instant);
        },
        None => {},
    }
}

/// Fixed-point scale of a sine value: `SINE_ONE` stands for 1.
pub const SINE_ONE: i64 = 1_000_000;

/// `n / d` rounded to the nearest integer, halves away from zero.
pub open spec fn round_div(n: int, d: int) -> int {
    if n >= 0 {
        (n + d / 2) / d
    } else {
        -((-n + d / 2) / d)
    }
}

/// `v` saturated to the range of `i32`.
pub open spec fn clamp_i32(v: int) -> i32 {
    if v < i32::MIN {
        i32::MIN
    } else if v > i32::MAX {
        i32::MAX
    } else {
        v as i32
    }
}

/// The x coordinate of a wobbling entity: the middle of a target `width` wide, moved by
/// `amplitude` times the sine (given in units of `1 / SINE_ONE`), rounded.
pub open spec fn wobble_x(width: u32, amplitude: i32, sine: i64) -> i32 {
    clamp_i32(width / 2 + round_div(sine * amplitude, SINE_ONE as int))
}

/// Computes `wobble_x(width, amplitude, sine)`.
pub fn wobble_position_x(width: u32, amplitude: i32, sine: i64) -> (r: i32)
    ensures
        r == wobble_x(width, amplitude, sine),
{
    proof {
        assert(-0x8000_0000_0000_0000 * 0x8000_0000 <= (sine as int) * (amplitude as int)
            <= 0x8000_0000_0000_0000 * 0x8000_0000) by (nonlinear_arith)
            requires
                -0x8000_0000_0000_0000 <= sine <= 0x7FFF_FFFF_FFFF_FFFF,
                -0x8000_0000 <= amplitude <= 0x7FFF_FFFF,
        ;
    }
    let n: i128 = (sine as i128) * (amplitude as i128);
    let half: u128 = (SINE_ONE / 2) as u128;
    let offset: i128 = if n >= 0 {
        ((n as u128 + half) / (SINE_ONE as u128)) as i128
    } else {
        -((((-n) as u128 + half) / (SINE_ONE as u128)) as i128)
    };
    let x: i128 = (width / 2) as i128 + offset;
    if x < i32::MIN as i128 {
        i32::MIN
    } else if x > i32::MAX as i128 {
        i32::MAX
    } else {
        x as i32
    }
}

/// `after` is `before` once the wobble step has run with the given target width and sine.
pub open spec fn wobbled(before: Entity, after: Entity, width: u32, sine: i64) -> bool {
    if wobble_in(before).is_some() && position_in(before).is_some() {
        &&& after.same_except(before, ComponentKind::Position)
        &&& position_in(after) == Some(
            Position {
                x: wobble_x(width, wobble_in(before).unwrap().amplitude, sine),
                y: position_in(before).unwrap().y,
            },
        )
    } else {
        after == before
    }
}

/// `after` is `before` once every wobbling entity has been moved for `sine`.
pub open spec fn wobble_done(before: Seq<Entity>, after: Seq<Entity>, sine: i64) -> bool {
    &&& after.len() == before.len()
    &&& forall|j: int|
        0 <= j < before.len() ==> wobbled(
            before[j],
            #[trigger] after[j],
            target_sprite(before).width,
            sine,
        )
}

/// Moves every entity that carries both a `WobbleMove` and a `Position` to the x coordinate
/// `wobble_x` gives for the render target's width, the entity's amplitude and `sine`, the
/// sine of the total elapsed time. A render target, with a sprite, must exist.
pub fn sys_wobble_move(entities: &mut Vec<Entity>, sine: i64)
    requires
        render_target_error(old(entities)@).is_none(),
    ensures
        wobble_done(old(entities)@, final(entities)@, sine),
{
    let i = match index_of_first_with::<RenderTarget>(entities) {
        Some(i) => i,
        None => return,
    };
    let width = match entities[i].get_component::<Sprite>() {
        Some(s) => s.width,
        None => return,
    };
    let ghost s0 = entities@;
    let n: usize = entities.len();
    let mut j: usize = 0;
    while j < n
        invariant
            n == entities@.len(),
            n == s0.len(),
            j <= n,
            width == target_sprite(s0).width,
            forall|k: int| 0 <= k < j ==> wobbled(s0[k], #[trigger] entities@[k], width, sine),
            forall|k: int| j <= k < n ==> #[trigger] entities@[k] == s0[k],
        decreases n - j,
    {
        let amplitude = match entities[j].get_component::<WobbleMove>() {
            Some(w) => Some(w.amplitude),
            None => None,
        };
        let ghost before = entities@;
        if let Some(a) = amplitude {
            let x = wobble_position_x(width, a, sine);
            match entities[j].get_component_mut::<Position>() {
                Some(p) => {
                    p.x = x;
                },
                None => {},
            }
        }
        proof {
            assert forall|k: int| 0 <= k < n && k != j implies #[trigger] entities@[k]
                == before[k] by {}
        }
        j = j + 1;
    }
}

/// Target pixel (`x`, `y`) once the sprites of the first `n` entities of `s` but entity
/// `skip` have been drawn, in order, over `t0`. Each entity that carries a well-formed
/// sprite and a position covers what was drawn before it.
pub open spec fn composite_pixel(
    t0: Sprite,
    s: Seq<Entity>,
    skip: int,
    n: int,
    x: int,
    y: int,
) -> u32
    decreases n,
{
    if n <= 0 {
        t0.pixel(x, y)
    } else {
        let e = s[n - 1];
        let prev = composite_pixel(t0, s, skip, n - 1, x, y);
        if n - 1 != skip && sprite_in(e).is_some() && position_in(e).is_some() && sprite_in(
            e,
        ).unwrap().wf() && covers(position_in(e).unwrap(), sprite_in(e).unwrap(), x, y) {
            let sp = sprite_in(e).unwrap();
            let p = position_in(e).unwrap();
            sp.pixel(x - origin_x(p, sp), y - origin_y(p, sp))
        } else {
            prev
        }
    }
}

/// `after` is `t0` with the sprites of the first `n` entities of `s` but `skip` drawn on it.
pub open spec fn composed(t0: Sprite, s: Seq<Entity>, skip: int, n: int, after: Sprite) -> bool {
    &&& after.width == t0.width
    &&& after.height == t0.height
    &&& after.anchor_x == t0.anchor_x
    &&& after.anchor_y == t0.anchor_y
    &&& after.data@.len() == t0.data@.len()
    &&& t0.wf() ==> forall|x: int, y: int|
        0 <= x < t0.width && 0 <= y < t0.height ==> #[trigger] after.pixel(x, y)
            == composite_pixel(t0, s, skip, n, x, y)
    &&& !t0.wf() ==> after == t0
}

/// `after` is `before` with every positioned sprite drawn onto the render target's sprite,
/// which the render target still carries.
pub open spec fn draw_done(before: Seq<Entity>, after: Seq<Entity>) -> bool {
    let i = first_with(before, ComponentKind::RenderTarget);
    &&& changed_only(before, after, i, ComponentKind::Sprite)
    &&& sprite_in(after[i]).is_some()
    &&& composed(
        target_sprite(before),
        before,
        i,
        before.len() as int,
        sprite_in(after[i]).unwrap(),
    )
}

/// Draws, in collection order, the sprite of every entity that also has a position onto the
/// render target's sprite. The target sprite is detached while the others are read and is
/// put back before returning, so the render target keeps its sprite. A render target, with
/// a sprite, must exist.
pub fn sys_draw_sprites(entities: &mut Vec<Entity>)
    requires
        render_target_error(old(entities)@).is_none(),
    ensures
        draw_done(old(entities)@, final(entities)@),
{
    let i = match index_of_first_with::<RenderTarget>(entities) {
        Some(i) => i,
        None => return,
    };
    let ghost s0 = entities@;
    proof {
        s0[i as int].lemma_slot_kind(ComponentKind::Sprite);
    }
    let mut target = match entities[i].remove_component::<Sprite>() {
        Ok(t) => t,
        Err(_) => return,
    };
    let ghost t0 = target;
    let ghost detached = entities@[i as int];
    proof {
        assert(entities@ == s0.update(i as int, detached));
    }
    let n: usize = entities.len();
    let mut j: usize = 0;
    while j < n
        invariant
            n == entities@.len(),
            n == s0.len(),
            j <= n,
            i < n,
            entities@ == s0.update(i as int, detached),
            !detached.has(ComponentKind::Sprite),
            t0 == target_sprite(s0),
            composed(t0, s0, i as int, j as int, target),
        decreases n - j,
    {
        let ghost before = target;
        match (entities[j].get_component::<Sprite>(), entities[j].get_component::<Position>()) {
            (Some(sp), Some(p)) => {
                draw_sprite(&mut target, p, sp);
                proof {
                    if t0.wf() && sp.wf() {
                        assert(blitted(before, *p, *sp, target));
                    }
                }
            },
            _ => {},
        }
        j = j + 1;
    }
    entities[i].add_component(target);
    proof {
        assert forall|k: int| 0 <= k < n && k != i implies #[trigger] entities@[k] == s0[k] by {}
    }
    
}

/// With a monotonic clock, the frame instant never goes back from one tick to the next, and
/// the second tick's `delta_time` is exactly the time between the two ticks.
pub proof fn lemma_time_monotonic(t0: TimeResources, now1: u64, now2: u64)
    requires
        t0.this_frame_instant <= now1 <= now2,
    ensures
        advanced(advanced(t0, now1), now2).this_frame_instant >= advanced(
            t0,
            now1,
        ).this_frame_instant,
        advanced(advanced(t0, now1), now2).delta_time == now2 - now1,
        advanced(advanced(t0, now1), now2).last_frame_instant == now1,
{
}

/// A step that leaves every entity's render-target marker alone and the first render target
/// with a sprite keeps the render target where it was, and usable.
pub proof fn lemma_render_target_kept(a: Seq<Entity>, b: Seq<Entity>)
    requires
        render_target_error(a).is_none(),
        a.len() == b.len(),
        forall|j: int|
            0 <= j < a.len() ==> (#[trigger] b[j].has(ComponentKind::RenderTarget)) == a[j].has(
                ComponentKind::RenderTarget,
            ),
        sprite_in(b[first_with(a, ComponentKind::RenderTarget)]).is_some(),
    ensures
        render_target_error(b).is_none(),
        first_with(b, ComponentKind::RenderTarget) == first_with(a, ComponentKind::RenderTarget),
{
    let k = ComponentKind::RenderTarget;
    lemma_first_exists(a, k, a.len() as int);
    lemma_first_kept(a, b, k, first_with(a, k));
}

/// Each of the clear, wobble and draw steps keeps the render target where it was, and with a
/// sprite.
pub proof fn lemma_steps_keep_render_target(s0: Seq<Entity>, s1: Seq<Entity>, s2: Seq<Entity>, s3: Seq<Entity>, sine: i64)
    requires
        render_target_error(s0).is_none(),
        clear_done(s0, s1),
        wobble_done(s1, s2, sine) || s2 == s1,
        draw_done(s2, s3) || s3 == s2,
    ensures
        render_target_error(s1).is_none(),
        render_target_error(s2).is_none(),
        render_target_error(s3).is_none(),
        first_with(s1, ComponentKind::RenderTarget) == first_with(s0, ComponentKind::RenderTarget),
        first_with(s2, ComponentKind::RenderTarget) == first_with(s0, ComponentKind::RenderTarget),
        first_with(s3, ComponentKind::RenderTarget) == first_with(s0, ComponentKind::RenderTarget),
{
    let k = ComponentKind::RenderTarget;
    lemma_first_exists(s0, k, s0.len() as int);
    let i = first_with(s0, k);
    assert forall|j: int| 0 <= j < s0.len() implies (#[trigger] s1[j].has(k)) == s0[j].has(k) by {
        if j == i {
            assert(s1[j].slot(k) == s0[j].slot(k));
        }
    }
    lemma_render_target_kept(s0, s1);
    if s2 != s1 {
        assert forall|j: int| 0 <= j < s1.len() implies (#[trigger] s2[j].has(k)) == s1[j].has(
            k,
        ) by {
            assert(wobbled(s1[j], s2[j], target_sprite(s1).width, sine));
            if wobble_in(s1[j]).is_some() && position_in(s1[j]).is_some() {
                assert(s2[j].slot(k) == s1[j].slot(k));
                assert(s2[j].slot(ComponentKind::Sprite) == s1[j].slot(ComponentKind::Sprite));
            }
        }
        assert(wobbled(s1[i], s2[i], target_sprite(s1).width, sine));
        if wobble_in(s1[i]).is_some() && position_in(s1[i]).is_some() {
            assert(s2[i].slot(ComponentKind::Sprite) == s1[i].slot(ComponentKind::Sprite));
        }
    }
    lemma_render_target_kept(s1, s2);
    if s3 != s2 {
        assert forall|j: int| 0 <= j < s2.len() implies (#[trigger] s3[j].has(k)) == s2[j].has(
            k,
        ) by {
            if j == i {
                assert(s3[j].slot(k) == s2[j].slot(k));
            }
        }
    }
    lemma_render_target_kept(s2, s3);
}

/// After a full tick (clear, wobble, draw, all of them successful; the timing step touches
/// only the resources entity) the render target is the same entity and still carries a
/// sprite.
pub proof fn lemma_tick_keeps_target_sprite(
    s0: Seq<Entity>,
    s1: Seq<Entity>,
    s2: Seq<Entity>,
    s3: Seq<Entity>,
    sine: i64,
)
    requires
        render_target_error(s0).is_none(),
        clear_done(s0, s1),
        wobble_done(s1, s2, sine),
        draw_done(s2, s3),
    ensures
        any_with(s3, ComponentKind::RenderTarget),
        first_with(s3, ComponentKind::RenderTarget) == first_with(s0, ComponentKind::RenderTarget),
        sprite_in(s3[first_with(s3, ComponentKind::RenderTarget)]).is_some(),
{
    lemma_steps_keep_render_target(s0, s1, s2, s3, sine);
}

/// What stops a frame tick from running on `resources` and `s`, if anything: the
/// render-target errors first, then a missing timing component.
pub open spec fn frame_error(resources: Entity, s: Seq<Entity>) -> Option<FrameError> {
    if render_target_error(s).is_some() {
        render_target_error(s)
    } else if time_in(resources).is_none() {
        Some(FrameError::MissingTimeResources)
    } else {
        None
    }
}

/// Tells whether the steps that need the render target's sprite can run on `entities`, and
/// if not, why.
pub fn check_render_target(entities: &Vec<Entity>) -> (r: Option<FrameError>)
    ensures
        r == render_target_error(entities@),
{
    match index_of_first_with::<RenderTarget>(entities) {
        None => Some(FrameError::NoRenderTarget),
        Some(i) => {
            proof {
                entities@[i as int].lemma_slot_kind(ComponentKind::Sprite);
            }
            if entities[i].has_component::<Sprite>() {
                None
            } else {
                Some(FrameError::RenderTargetWithoutSprite)
            }
        },
    }
}

/// Tells whether a frame tick can run on `resources` and `entities`, and if not, why.
pub fn check_frame(resources: &Entity, entities: &Vec<Entity>) -> (r: Option<FrameError>)
    ensures
        r == frame_error(*resources, entities@),
{
    let rt = check_render_target(entities);
    if rt.is_some() {
        return rt;
    }
    proof {
        resources.lemma_slot_kind(ComponentKind::Time);
    }
    if resources.has_component::<TimeResources>() {
        None
    } else {
        Some(FrameError::MissingTimeResources)
    }
}

/// One frame tick: clears the render target, advances the timing of `resources` to `now`,
/// moves the wobbling entities by `sine_of(total_time)`, and draws the sprites. The render
/// target, with a sprite, and the timing component must exist (`check_frame` tells a caller
/// whether they do). The tick leaves the render target with its sprite.
pub fn run_frame<F: Fn(u64) -> i64>(
    resources: &mut Entity,
    entities: &mut Vec<Entity>,
    now: u64,
    sine_of: F,
)
    requires
        frame_error(*old(resources), old(entities)@).is_none(),
        forall|t: u64| sine_of.requires((t,)),
    ensures
        ({
            let t = advanced(time_in(*old(resources)).unwrap(), now);
            &&& time_in(*final(resources)) == Some(t)
            &&& final(resources).same_except(*old(resources), ComponentKind::Time)
            &&& exists|s1: Seq<Entity>, s2: Seq<Entity>, sine: i64|
                #![trigger clear_done(old(entities)@, s1), wobble_done(s1, s2, sine)]
                {
                    &&& clear_done(old(entities)@, s1)
                    &&& sine_of.ensures((t.total_time,), sine)
                    &&& wobble_done(s1, s2, sine)
                    &&& draw_done(s2, final(entities)@)
                }
            &&& first_with(final(entities)@, ComponentKind::RenderTarget) == first_with(
                old(entities)@,
                ComponentKind::RenderTarget,
            )
            &&& sprite_in(
                final(entities)@[first_with(final(entities)@, ComponentKind::RenderTarget)],
            ).is_some()
        }),
{
    let ghost s0 = entities@;
    sys_clear_render_target(entities);
    let ghost s1 = entities@;
    sys_time_resources(resources, now);
    proof {
        resources.lemma_slot_kind(ComponentKind::Time);
    }
    let total = match resources.get_component::<TimeResources>() {
        Some(t) => t.total_time,
        None => 0,
    };
    let sine = sine_of(total);
    proof {
        lemma_steps_keep_render_target(s0, s1, s1, s1, sine);
    }
    sys_wobble_move(entities, sine);
    let ghost s2 = entities@;
    proof {
        lemma_steps_keep_render_target(s0, s1, s2, s2, sine);
    }
    sys_draw_sprites(entities);
    proof {
        lemma_steps_keep_render_target(s0, s1, s2, entities@, sine);
        assert(clear_done(s0, s1) && wobble_done(s1, s2, sine));
    }
}

} // verus!

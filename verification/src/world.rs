//! The two per-frame steps over the entity store.
//!
//! The host's entity store appears here as a vector of [`Entity`] values:
//! an identifier plus the optional per-entity data this layer owns (sprite
//! intent, animation instance, binding marker, renderable representation).
//! Each frame the host runs [`update_animations`] first and
//! [`add_sprite_from_sprite_meta`] second, so that a changed frame index is
//! re-bound before the next render.

use vstd::prelude::*;
use crate::anim::{Animation, AnimationType, AnimationView, tick_spec};
use crate::sheets::{SpriteSheetHandle, SpriteSheetResource};
use crate::table::assoc_get;

verus! {

/// Per-entity value naming which sheet and which tile the entity wants
/// displayed.  Mutated by the animation tick step (index only) or directly by
/// game logic for static sprites.
#[derive(Debug)]
pub struct SpriteMeta {
    pub index: usize,
    pub sheet_name: String,
}

/// Model of a [`SpriteMeta`].
pub struct SpriteMetaView {
    pub index: usize,
    pub sheet_name: Seq<char>,
}

impl View for SpriteMeta {
    type V = SpriteMetaView;

    open spec fn view(&self) -> SpriteMetaView {
        SpriteMetaView { index: self.index, sheet_name: self.sheet_name@ }
    }
}

impl Clone for SpriteMeta {
    fn clone(&self) -> (r: Self)
        ensures
            r@ == self@,
    {
        SpriteMeta { index: self.index, sheet_name: self.sheet_name.clone() }
    }
}

impl Default for SpriteMeta {
    /// The default intent: the first tile of the sheet named `default`.
    fn default() -> (r: Self)
        ensures
            r@.index == 0,
            r@.sheet_name == "default"@,
    {
        SpriteMeta { index: 0, sheet_name: "default".to_owned() }
    }
}

/// The renderable representation bound to an entity: the registry's handle
/// pair, the tile offset, and the fixed on-screen size in physical pixels
/// (the logical sprite size scaled by the display's scale factor).
#[derive(Debug, Clone, Copy, PartialEq, Eq, Structural)]
pub struct RenderedSprite {
    pub texture: u64,
    pub layout: u64,
    pub index: usize,
    pub size_px: u64,
}

/// One entity of the host store, as this layer sees it: an identifier and
/// the optional per-entity data this layer reads or writes.  `sprite_added`
/// is the binding marker: it holds exactly when the renderable representation
/// matches the current sprite intent.
#[derive(Debug)]
pub struct Entity {
    pub id: u64,
    pub has_transform: bool,
    pub sprite_meta: Option<SpriteMeta>,
    pub animation: Option<Animation>,
    pub sprite_added: bool,
    pub renderable: Option<RenderedSprite>,
}

/// Model of an [`Entity`].
pub struct EntityView {
    pub id: u64,
    pub has_transform: bool,
    pub sprite_meta: Option<SpriteMetaView>,
    pub animation: Option<AnimationView>,
    pub sprite_added: bool,
    pub renderable: Option<RenderedSprite>,
}

impl View for Entity {
    type V = EntityView;

    open spec fn view(&self) -> EntityView {
        EntityView {
            id: self.id,
            has_transform: self.has_transform,
            sprite_meta: match self.sprite_meta {
                Some(m) => Some(m@),
                None => None,
            },
            animation: match self.animation {
                Some(a) => Some(a@),
                None => None,
            },
            sprite_added: self.sprite_added,
            renderable: self.renderable,
        }
    }
}

impl Clone for Entity {
    fn clone(&self) -> (r: Self)
        ensures
            r@ == self@,
    {
        Entity {
            id: self.id,
            has_transform: self.has_transform,
            sprite_meta: match &self.sprite_meta {
                Some(m) => Some(m.clone()),
                None => None,
            },
            animation: match &self.animation {
                Some(a) => Some(a.clone()),
                None => None,
            },
            sprite_added: self.sprite_added,
            renderable: self.renderable,
        }
    }
}

/// The store as a sequence of entity models.
pub open spec fn world_view(w: Seq<Entity>) -> Seq<EntityView> {
    w.map_values(|e: Entity| e@)
}

/// An entity the binding step works on: it has a sprite intent and a
/// transform, and its binding marker is clear.
pub open spec fn bind_eligible(e: EntityView) -> bool {
    &&& e.sprite_meta is Some
    &&& e.has_transform
    &&& !e.sprite_added
}

/// What the binding step does to one entity.  On a registry hit the entity
/// gets an up-to-date renderable and the marker; on a miss (or if the entity
/// is not eligible) it is left untouched.
pub open spec fn bind_entity_spec(
    e: EntityView,
    sheets: Seq<(Seq<char>, SpriteSheetHandle)>,
    sprite_size_px: u64,
) -> EntityView {
    if bind_eligible(e) {
        match assoc_get(sheets, e.sprite_meta->Some_0.sheet_name) {
            Some(h) => EntityView {
                sprite_added: true,
                renderable: Some(RenderedSprite {
                    texture: h.texture,
                    layout: h.layout,
                    index: e.sprite_meta->Some_0.index,
                    size_px: sprite_size_px,
                }),
                ..e
            },
            None => e,
        }
    } else {
        e
    }
}

/// The binding step over the whole store: each entity independently.
pub open spec fn bind_step_spec(
    w: Seq<EntityView>,
    sheets: Seq<(Seq<char>, SpriteSheetHandle)>,
    sprite_size_px: u64,
) -> Seq<EntityView> {
    w.map_values(|e: EntityView| bind_entity_spec(e, sheets, sprite_size_px))
}

/// The sheet names the binding step warns about: one per eligible entity
/// whose sheet name is not in the registry, in store order.
pub open spec fn bind_warnings_spec(
    w: Seq<EntityView>,
    sheets: Seq<(Seq<char>, SpriteSheetHandle)>,
) -> Seq<Seq<char>>
    decreases w.len(),
{
    if w.len() == 0 {
        Seq::empty()
    } else {
        let pre = bind_warnings_spec(w.drop_last(), sheets);
        if bind_eligible(w.last()) && assoc_get(sheets, w.last().sprite_meta->Some_0.sheet_name)
            is None {
            pre.push(w.last().sprite_meta->Some_0.sheet_name)
        } else {
            pre
        }
    }
}

/// The sprite binding step.
///
/// For every entity that has a sprite intent and a transform but lacks the
/// binding marker: look its sheet name up in the registry; on a hit, install
/// the renderable representation (handle pair, tile index, fixed pixel size)
/// and attach the marker; on a miss, leave the entity untouched and report
/// its sheet name — a recoverable, per-entity condition.  No other entity is
/// changed.
pub fn add_sprite_from_sprite_meta(
    world: &mut Vec<Entity>,
    sheets: &SpriteSheetResource,
    sprite_size_px: u64,
) -> (warnings: Vec<String>)
    ensures
        world_view(final(world)@) == bind_step_spec(
            world_view(old(world)@),
            sheets.pairs(),
            sprite_size_px,
        ),
        warnings@.map_values(|s: String| s@) == bind_warnings_spec(
            world_view(old(world)@),
            sheets.pairs(),
        ),
{
    let ghost wv = world_view(old(world)@);
    let mut out: Vec<Entity> = Vec::new();
    let mut warnings: Vec<String> = Vec::new();
    let n = world.len();
    proof {
        assert(wv.take(0) =~= Seq::<EntityView>::empty());
        assert(world_view(out@) =~= Seq::<EntityView>::empty());
        assert(bind_step_spec(wv.take(0), sheets.pairs(), sprite_size_px) =~= Seq::<
            EntityView,
        >::empty());
        assert(warnings@.map_values(|s: String| s@) =~= Seq::<Seq<char>>::empty());
    }
    let mut i: usize = 0;
    while i < n
        invariant
            i <= n,
            n == world@.len(),
            world@ == old(world)@,
            wv == world_view(world@),
            world_view(out@) == bind_step_spec(wv.take(i as int), sheets.pairs(), sprite_size_px),
            warnings@.map_values(|s: String| s@) == bind_warnings_spec(
                wv.take(i as int),
                sheets.pairs(),
            ),
        decreases n - i,
    {
        let e = &world[i];
        assert(e@ == wv[i as int]);
        let ghost old_out = out@;
        let ghost old_warn = warnings@;
        let mut warned: bool = false;
        if e.has_transform && !e.sprite_added && e.sprite_meta.is_some() {
            let meta = e.sprite_meta.as_ref().unwrap();
            match sheets.get(meta.sheet_name.as_str()) {
                Some(handle) => {
                    let mut ne = e.clone();
                    ne.sprite_added = true;
                    ne.renderable = Some(RenderedSprite {
                        texture: handle.texture,
                        layout: handle.layout,
                        index: meta.index,
                        size_px: sprite_size_px,
                    });
                    assert(ne@ == bind_entity_spec(wv[i as int], sheets.pairs(), sprite_size_px));
                    out.push(ne);
                },
                None => {
                    warnings.push(meta.sheet_name.clone());
                    warned = true;
                    out.push(e.clone());
                },
            }
        } else {
            out.push(e.clone());
        }
        proof {
            assert(wv.take(i + 1).drop_last() =~= wv.take(i as int));
            assert(wv.take(i + 1).last() == wv[i as int]);
            assert(world_view(out@) =~= world_view(old_out).push(out@.last()@));
            assert(bind_step_spec(wv.take(i + 1), sheets.pairs(), sprite_size_px) =~= bind_step_spec(
                wv.take(i as int),
                sheets.pairs(),
                sprite_size_px,
            ).push(bind_entity_spec(wv[i as int], sheets.pairs(), sprite_size_px)));
            if warned {
                assert(warnings@.map_values(|s: String| s@) =~= old_warn.map_values(
                    |s: String| s@,
                ).push(warnings@.last()@));
            } else {
                assert(warnings@ == old_warn);
            }
        }
        i = i + 1;
    }
    proof {
        assert(wv.take(n as int) =~= wv);
    }
    *world = out;
    warnings
}

/// Law (idempotence of binding, per entity): binding is a no-op on an entity
/// the binding step has already processed — a bound entity is no longer
/// eligible, and a missed entity misses again.
pub proof fn lemma_bind_entity_idempotent(
    e: EntityView,
    sheets: Seq<(Seq<char>, SpriteSheetHandle)>,
    sprite_size_px: u64,
)
    ensures
        bind_entity_spec(bind_entity_spec(e, sheets, sprite_size_px), sheets, sprite_size_px)
            == bind_entity_spec(e, sheets, sprite_size_px),
{
}

/// Law (idempotence of binding): running the binding step twice in
/// succession, with no sprite-intent change in between, produces the same
/// bound store as running it once; in particular the marker is attached by
/// the first run alone.
pub proof fn lemma_bind_step_idempotent(
    w: Seq<EntityView>,
    sheets: Seq<(Seq<char>, SpriteSheetHandle)>,
    sprite_size_px: u64,
)
    ensures
        bind_step_spec(bind_step_spec(w, sheets, sprite_size_px), sheets, sprite_size_px)
            == bind_step_spec(w, sheets, sprite_size_px),
{
    let one = bind_step_spec(w, sheets, sprite_size_px);
    let two = bind_step_spec(one, sheets, sprite_size_px);
    assert forall|i: int| 0 <= i < w.len() implies two[i] == one[i] by {
        lemma_bind_entity_idempotent(w[i], sheets, sprite_size_px);
    }
    assert(two =~= one);
}

/// Law (unknown sheet): an eligible entity whose sheet name is not in the
/// registry is left exactly as it was — in particular it stays unbound —
/// and no other part of the step is affected.
pub proof fn lemma_unknown_sheet_unbound(
    e: EntityView,
    sheets: Seq<(Seq<char>, SpriteSheetHandle)>,
    sprite_size_px: u64,
)
    requires
        bind_eligible(e),
        assoc_get(sheets, e.sprite_meta->Some_0.sheet_name) is None,
    ensures
        bind_entity_spec(e, sheets, sprite_size_px) == e,
        !bind_entity_spec(e, sheets, sprite_size_px).sprite_added,
{
}

/// Law (unknown sheet, warning): the binding step reports the sheet name of
/// every eligible entity that missed the registry.
pub proof fn lemma_unknown_sheet_warned(
    w: Seq<EntityView>,
    sheets: Seq<(Seq<char>, SpriteSheetHandle)>,
    i: int,
)
    requires
        0 <= i < w.len(),
        bind_eligible(w[i]),
        assoc_get(sheets, w[i].sprite_meta->Some_0.sheet_name) is None,
    ensures
        bind_warnings_spec(w, sheets).contains(w[i].sprite_meta->Some_0.sheet_name),
    decreases w.len(),
{
    let name = w[i].sprite_meta->Some_0.sheet_name;
    let pre = bind_warnings_spec(w.drop_last(), sheets);
    if i == w.len() - 1 {
        assert(bind_warnings_spec(w, sheets) == pre.push(name));
        assert(pre.push(name)[pre.len() as int] == name);
    } else {
        assert(w.drop_last()[i] == w[i]);
        lemma_unknown_sheet_warned(w.drop_last(), sheets, i);
        let at = choose|j: int| 0 <= j < pre.len() && pre[j] == name;
        if bind_eligible(w.last()) && assoc_get(sheets, w.last().sprite_meta->Some_0.sheet_name)
            is None {
            assert(pre.push(w.last().sprite_meta->Some_0.sheet_name)[at] == name);
        }
    }
}

/// Law (marker cleared on change): whenever the tick step changes an
/// entity's displayed tile index, it clears the binding marker of that
/// entity in the same step, forcing a re-bind before the next render.
pub proof fn lemma_tick_clears_marker(e: EntityView, delta: int)
    requires
        e.sprite_meta is Some,
    ensures
        match tick_entity_spec(e, delta) {
            Some(e2) => e2.sprite_meta is Some && (e2.sprite_meta->Some_0.index
                != e.sprite_meta->Some_0.index ==> !e2.sprite_added),
            None => true,
        },
{
}

/// Law (despawn on completion): a bound entity whose animation completes
/// this tick under the `Despawn` policy is removed from the store.
pub proof fn lemma_despawn_completion(e: EntityView, delta: int)
    requires
        tick_eligible(e),
        tick_spec(e.animation->Some_0, delta).finished,
        tick_spec(e.animation->Some_0, delta).animation_type == AnimationType::Despawn,
    ensures
        tick_entity_spec(e, delta) is None,
{
}

/// Every entity the tick step keeps carries the identifier of an entity of
/// the old store.
pub proof fn lemma_update_ids_from(w: Seq<EntityView>, delta: int)
    ensures
        forall|j: int| 0 <= j < update_animations_spec(w, delta).len() ==> exists|k: int|
            0 <= k < w.len() && #[trigger] update_animations_spec(w, delta)[j].id == w[k].id,
    decreases w.len(),
{
    if w.len() > 0 {
        let res = update_animations_spec(w, delta);
        let pre = update_animations_spec(w.drop_last(), delta);
        lemma_update_ids_from(w.drop_last(), delta);
        assert forall|j: int| 0 <= j < res.len() implies exists|k: int|
            0 <= k < w.len() && #[trigger] res[j].id == w[k].id by {
            if j < pre.len() {
                assert(res[j] == pre[j]);
                let k = choose|k: int| 0 <= k < w.drop_last().len() && pre[j].id
                    == w.drop_last()[k].id;
                assert(res[j].id == w[k].id);
            } else {
                assert(res[j].id == w[w.len() - 1].id);
            }
        }
    }
}

/// Law (despawned entities are gone): once an entity's animation completes
/// under the `Despawn` policy, no entity of the resulting store carries its
/// identifier, so no later tick can refer to it.
pub proof fn lemma_despawn_removes(w: Seq<EntityView>, delta: int, i: int)
    requires
        0 <= i < w.len(),
        tick_entity_spec(w[i], delta) is None,
        forall|j: int, k: int| 0 <= j < k < w.len() ==> w[j].id != w[k].id,
    ensures
        forall|j: int| 0 <= j < update_animations_spec(w, delta).len()
            ==> #[trigger] update_animations_spec(w, delta)[j].id != w[i].id,
    decreases w.len(),
{
    let res = update_animations_spec(w, delta);
    let pre = update_animations_spec(w.drop_last(), delta);
    if i == w.len() - 1 {
        assert(res == pre);
        lemma_update_ids_from(w.drop_last(), delta);
        assert forall|j: int| 0 <= j < res.len() implies #[trigger] res[j].id != w[i].id by {
            let k = choose|k: int| 0 <= k < w.drop_last().len() && pre[j].id == w.drop_last()[k].id;
            assert(w[k].id != w[i].id);
        }
    } else {
        assert(w.drop_last()[i] == w[i]);
        lemma_despawn_removes(w.drop_last(), delta, i);
        assert forall|j: int| 0 <= j < res.len() implies #[trigger] res[j].id != w[i].id by {
            if j < pre.len() {
                assert(res[j] == pre[j]);
            } else {
                assert(res[j].id == w[w.len() - 1].id);
            }
        }
    }
}

/// An entity the tick step works on: it is bound and carries an animation
/// and a sprite intent.
pub open spec fn tick_eligible(e: EntityView) -> bool {
    &&& e.sprite_added
    &&& e.animation is Some
    &&& e.sprite_meta is Some
}

/// Tick arithmetic stays in range for this entity: its animation, if any, is
/// well formed and its accumulator can take the delta.
pub open spec fn entity_tick_ready(e: EntityView, delta: int) -> bool {
    e.animation matches Some(a) ==> a.wf() && a.elapsed_micros + delta <= u64::MAX
}

/// What the tick step does to one entity.  The animation is ticked once; if
/// the displayed tile index changed, the sprite intent is updated and the
/// binding marker cleared; on completion, a `Once` animation is detached
/// (the sprite freezes on its final frame) and a `Despawn` animation removes
/// the entity (`None`).
pub open spec fn tick_entity_spec(e: EntityView, delta: int) -> Option<EntityView> {
    if tick_eligible(e) {
        let a2 = tick_spec(e.animation->Some_0, delta);
        let idx = a2.frames[a2.position];
        let meta = e.sprite_meta->Some_0;
        let changed = idx != meta.index;
        if a2.finished && a2.animation_type == AnimationType::Despawn {
            None
        } else {
            Some(EntityView {
                sprite_meta: Some(
                    SpriteMetaView { index: if changed { idx } else { meta.index }, ..meta },
                ),
                sprite_added: !changed && e.sprite_added,
                animation: if a2.finished && a2.animation_type == AnimationType::Once {
                    None
                } else {
                    Some(a2)
                },
                ..e
            })
        }
    } else {
        Some(e)
    }
}

/// The tick step over the whole store: each entity independently, despawned
/// entities removed, order kept.
pub open spec fn update_animations_spec(w: Seq<EntityView>, delta: int) -> Seq<EntityView>
    decreases w.len(),
{
    if w.len() == 0 {
        Seq::empty()
    } else {
        let pre = update_animations_spec(w.drop_last(), delta);
        match tick_entity_spec(w.last(), delta) {
            Some(e) => pre.push(e),
            None => pre,
        }
    }
}

/// Checks that a tick of `delta` microseconds is in range for every entity
/// of the store; [`update_animations`] requires this.
pub fn update_ready(world: &Vec<Entity>, delta: u64) -> (r: bool)
    ensures
        r == forall|i: int| 0 <= i < world@.len() ==> entity_tick_ready(
            #[trigger] world_view(world@)[i],
            delta as int,
        ),
{
    let n = world.len();
    let mut i: usize = 0;
    while i < n
        invariant
            i <= n,
            n == world@.len(),
            forall|j: int| 0 <= j < i ==> entity_tick_ready(
                #[trigger] world_view(world@)[j],
                delta as int,
            ),
        decreases n - i,
    {
        let e = &world[i];
        assert(e@ == world_view(world@)[i as int]);
        match &e.animation {
            Some(a) => {
                if !a.tick_ready(delta) {
                    assert(!entity_tick_ready(world_view(world@)[i as int], delta as int));
                    return false;
                }
            },
            None => {},
        }
        assert(entity_tick_ready(world_view(world@)[i as int], delta as int));
        i = i + 1;
    }
    true
}

/// The animation tick step.
///
/// Advances every bound entity's animation by `delta` microseconds, updates
/// the entity's displayed tile index (clearing the binding marker when it
/// changed), and applies the completion policy: `Once` detaches the
/// animation, `Despawn` removes the entity, `Repeat` never completes.
pub fn update_animations(world: &mut Vec<Entity>, delta: u64)
    requires
        forall|i: int| 0 <= i < old(world)@.len() ==> entity_tick_ready(
            #[trigger] world_view(old(world)@)[i],
            delta as int,
        ),
    ensures
        world_view(final(world)@) == update_animations_spec(
            world_view(old(world)@),
            delta as int,
        ),
{
    let ghost wv = world_view(old(world)@);
    let mut out: Vec<Entity> = Vec::new();
    let n = world.len();
    proof {
        assert(wv.take(0) =~= Seq::<EntityView>::empty());
        assert(world_view(out@) =~= Seq::<EntityView>::empty());
        assert(update_animations_spec(wv.take(0), delta as int) =~= Seq::<EntityView>::empty());
    }
    let mut i: usize = 0;
    while i < n
        invariant
            i <= n,
            n == world@.len(),
            world@ == old(world)@,
            wv == world_view(world@),
            forall|j: int| 0 <= j < n ==> entity_tick_ready(#[trigger] wv[j], delta as int),
            world_view(out@) == update_animations_spec(wv.take(i as int), delta as int),
        decreases n - i,
    {
        let e = &world[i];
        assert(e@ == wv[i as int]);
        assert(entity_tick_ready(wv[i as int], delta as int));
        let ghost old_out = out@;
        let mut removed: bool = false;
        if e.sprite_added && e.animation.is_some() && e.sprite_meta.is_some() {
            let meta = e.sprite_meta.as_ref().unwrap();
            let anim = e.animation.as_ref().unwrap();
            let mut a = anim.clone();
            let next_index = a.tick(delta);
            let changed = next_index != meta.index;
            let finished = a.finished();
            let ty = a.get_type();
            if finished && ty == AnimationType::Despawn {
                removed = true;
            } else {
                let ne = Entity {
                    id: e.id,
                    has_transform: e.has_transform,
                    sprite_meta: Some(
                        SpriteMeta {
                            index: if changed {
                                next_index
                            } else {
                                meta.index
                            },
                            sheet_name: meta.sheet_name.clone(),
                        },
                    ),
                    animation: if finished && ty == AnimationType::Once {
                        None
                    } else {
                        Some(a)
                    },
                    sprite_added: !changed && e.sprite_added,
                    renderable: e.renderable,
                };
                assert(tick_entity_spec(wv[i as int], delta as int) == Some(ne@));
                out.push(ne);
            }
        } else {
            assert(tick_entity_spec(wv[i as int], delta as int) == Some(e@));
            out.push(e.clone());
        }
        proof {
            assert(wv.take(i + 1).drop_last() =~= wv.take(i as int));
            assert(wv.take(i + 1).last() == wv[i as int]);
            if removed {
                assert(world_view(out@) == world_view(old_out));
            } else {
                assert(world_view(out@) =~= world_view(old_out).push(out@.last()@));
            }
            assert(world_view(out@) =~= update_animations_spec(wv.take(i + 1), delta as int));
        }
        i = i + 1;
    }
    proof {
        assert(wv.take(n as int) =~= wv);
    }
    *world = out;
}

} // verus!

//! Lighting scenes, built beside the draw list.
//!
//! A slab and the instances of a material come from the same layers on the same surface, so
//! their rectangles and radii agree. A scene holds what reaches the viewport, widened by the
//! margin that shadows from nearby surfaces need.

use crate::material::compile::{material_draws, pass_over};
use crate::material::{
    layer_shape, modest, Drive, Layer, Material, Pass, PrimKind, Shape, Srgba, Surface,
};
use crate::units::{
    clamped, fits, floor_div, hold_between, is_root, larger, max_of, product, square_root, times,
    times_is_bounded, Micros, MICRO,
};
use vstd::prelude::*;

verus! {

/// How far past the viewport a scene reaches, in logical pixels: the furthest that the tallest
/// surface throws a shadow. Neither quantity counts below zero, because a negative margin would
/// drop surfaces that are on screen.
pub fn max_reach(elevation_max: Micros, grazing: Micros) -> (result: Micros)
    requires
        fits(elevation_max as int),
        fits(grazing as int),
    ensures
        result == times(max_of(elevation_max as int, 0), max_of(grazing as int, 0)),
        result >= 0,
{
    let height: Micros = larger(elevation_max, 0);
    let run: Micros = larger(grazing, 0);
    assert(height * run >= 0) by (nonlinear_arith)
        requires
            height >= 0,
            run >= 0,
    ;
    product(height, run)
}

/// A taller surface or a shallower light never needs less of a margin.
pub proof fn taller_surfaces_reach_no_less(low: int, high: int, shallow: int, steep: int)
    requires
        low <= high,
        steep <= shallow,
    ensures
        times(max_of(low, 0), max_of(steep, 0)) <= times(max_of(high, 0), max_of(shallow, 0)),
{
    let a = max_of(low, 0);
    let b = max_of(high, 0);
    let c = max_of(steep, 0);
    let d = max_of(shallow, 0);
    assert(a * c <= b * d) by (nonlinear_arith)
        requires
            0 <= a <= b,
            0 <= c <= d,
    ;
}

/// Whether any of the layers shows.
pub open spec fn shows_anything(layers: Seq<Layer>) -> bool {
    exists|i: int|
        0 <= i < layers.len() && ((#[trigger] layers[i]).near.a > 0 || layers[i].far.a > 0)
}

/// Whether a material takes up room in the scene: an invisible surface that casts a shadow is a
/// shadow from nothing.
pub fn occupies_scene(material: &Material) -> (result: bool)
    ensures
        result == shows_anything(material.layers@),
{
    let mut i: usize = 0;
    while i < material.layers.len()
        invariant
            i <= material.layers@.len(),
            forall|j: int|
                0 <= j < i ==> (#[trigger] material.layers@[j]).near.a <= 0
                    && material.layers@[j].far.a <= 0,
        decreases material.layers@.len() - i,
    {
        if material.layers[i].near.a > 0 || material.layers[i].far.a > 0 {
            assert(material.layers@[i as int].near.a > 0 || material.layers@[i as int].far.a > 0);
            return true;
        }
        i = i + 1;
    }
    false
}

/// How far sideways a light from `run` throws for each unit that it drops.
pub open spec fn throw(run: int, drop: int) -> int {
    run * 1_000_000 / max_of(if drop < 0 {
        -drop
    } else {
        drop
    }, 50_000)
}

/// How far a shadow travels for each unit of its caster's height: the run over the drop. A
/// light with no drop would throw an endless shadow, so the drop is at least a twentieth.
pub fn grazing(direction: (Micros, Micros, Micros)) -> (result: Micros)
    requires
        modest(direction.0 as int),
        modest(direction.1 as int),
        modest(direction.2 as int),
    ensures
        exists|run: int| #[trigger]
            is_root(direction.0 * direction.0 + direction.1 * direction.1, run) && result == throw(
                run,
                direction.2 as int,
            ),
        result >= 0,
{
    let x: Micros = direction.0;
    let y: Micros = direction.1;
    assert(0 <= x * x <= 1_000_000_000_000_000_000_000_000) by (nonlinear_arith)
        requires
            -1_000_000_000_000 <= x <= 1_000_000_000_000,
    ;
    assert(0 <= y * y <= 1_000_000_000_000_000_000_000_000) by (nonlinear_arith)
        requires
            -1_000_000_000_000 <= y <= 1_000_000_000_000,
    ;
    let run: i128 = square_root(x * x + y * y);
    let height: Micros = direction.2;
    let drop: Micros = larger(
        if height < 0 {
            -height
        } else {
            height
        },
        50_000,
    );
    assert(run * 1_000_000 / drop as int >= 0) by (nonlinear_arith)
        requires
            run >= 0,
            drop >= 50_000,
    ;
    assert(is_root(direction.0 * direction.0 + direction.1 * direction.1, run as int));
    floor_div(run * MICRO, drop)
}

/// A light from straight above throws nothing sideways, whatever its height.
pub proof fn an_overhead_light_throws_nothing(run: int, drop: int)
    requires
        is_root(0, run),
    ensures
        throw(run, drop) == 0,
{
    assert(run == 0) by (nonlinear_arith)
        requires
            run >= 0,
            run * run <= 0,
    ;
    let d = max_of(
        if drop < 0 {
            -drop
        } else {
            drop
        },
        50_000,
    );
    assert(0int / d == 0) by (nonlinear_arith)
        requires
            d > 0,
    ;
}

/// How the focus lamp is authored.
#[derive(Clone, Copy, PartialEq, Eq, Debug, Structural)]
pub struct FocusLightTokens {
    /// How high it hangs above what it lights, in logical pixels.
    pub height: Micros,
    /// Its angular size, in degrees.
    pub size_deg: Micros,
    /// How much of the light on the focused region is its own, from zero to one.
    pub share: Micros,
    /// How much of the room it takes over, from zero to one.
    pub ambient: Micros,
}

impl FocusLightTokens {
    /// Its share, within its budget.
    pub fn share(&self) -> (result: Micros)
        ensures
            result == clamped(self.share as int, 0, 1_000_000),
    {
        hold_between(self.share, 0, MICRO)
    }

    /// Its part of the room, within its budget.
    pub fn ambient(&self) -> (result: Micros)
        ensures
            result == clamped(self.ambient as int, 0, 1_000_000),
    {
        hold_between(self.ambient, 0, MICRO)
    }
}

/// A rectangle in physical pixels.
#[derive(Clone, Copy, PartialEq, Eq, Debug, Structural)]
pub struct Strip {
    /// Left edge.
    pub x: Micros,
    /// Top edge.
    pub y: Micros,
    /// Width.
    pub w: Micros,
    /// Height.
    pub h: Micros,
}

/// The lamp over the focused region.
#[derive(Clone, Copy, PartialEq, Eq, Debug, Structural)]
pub struct FocusLamp {
    /// The region under it.
    pub rect: Strip,
    /// How high it hangs above the canvas, in physical pixels.
    pub height: Micros,
    /// Its angular size, in degrees.
    pub size: Micros,
    /// How much of the light on the region is its own.
    pub share: Micros,
    /// How much of the room it takes over.
    pub ambient: Micros,
}

/// The lamp over the focused region. `gain` scales both strengths, so that a lamp at zero gain
/// contributes nothing.
pub fn focus_light(
    rect: Strip,
    elevation: Micros,
    tokens: FocusLightTokens,
    scale: Micros,
    gain: Micros,
) -> (result: FocusLamp)
    requires
        fits(elevation as int),
        modest(tokens.height as int),
        modest(scale as int),
    ensures
        result.rect == rect,
        result.height == elevation + times(tokens.height as int, max_of(scale as int, 0)),
        result.size == tokens.size_deg,
        result.share == times(
            clamped(tokens.share as int, 0, 1_000_000),
            clamped(gain as int, 0, 1_000_000),
        ),
        result.ambient == times(
            clamped(tokens.ambient as int, 0, 1_000_000),
            clamped(gain as int, 0, 1_000_000),
        ),
        0 <= result.share <= MICRO,
        0 <= result.ambient <= MICRO,
{
    let gain: Micros = hold_between(gain, 0, MICRO);
    let scale: Micros = larger(scale, 0);
    let share: Micros = tokens.share();
    let ambient: Micros = tokens.ambient();
    proof {
        times_is_bounded(share as int, gain as int, 1);
        times_is_bounded(ambient as int, gain as int, 1);
        times_is_bounded(tokens.height as int, scale as int, 1_000_000);
    }
    FocusLamp {
        rect,
        height: elevation + product(tokens.height, scale),
        size: tokens.size_deg,
        share: product(share, gain),
        ambient: product(ambient, gain),
    }
}

/// A lamp at zero gain is arithmetically absent, one at full gain burns as authored, and more
/// gain never burns less.
pub proof fn gain_scales_the_lamp(strength: int, low: int, high: int)
    requires
        0 <= strength <= 1_000_000,
        0 <= low <= high <= 1_000_000,
    ensures
        times(strength, 0) == 0,
        times(strength, 1_000_000) == strength,
        times(strength, low) <= times(strength, high),
{
    assert(strength * low <= strength * high) by (nonlinear_arith)
        requires
            0 <= strength,
            low <= high,
    ;
}

/// One surface as the lighting pass sees it.
#[derive(Clone, Copy, PartialEq, Eq, Debug, Structural)]
pub struct Slab {
    /// Where its top face is.
    pub shape: Shape,
    /// How high its top face is, in physical pixels.
    pub elevation: Micros,
    /// How far it extends down from its top face.
    pub thickness: Micros,
    /// Its colour when it is not lit.
    pub albedo: Srgba,
    /// Roughness.
    pub roughness: Micros,
    /// Metalness.
    pub metalness: Micros,
    /// The colour it gives the room.
    pub emission: Srgba,
    /// How brightly it gives it.
    pub emission_strength: Micros,
    /// The least of its light that a shadow leaves it.
    pub attenuation_floor: Micros,
    /// The most light that may be added to it.
    pub addition_max: Micros,
}

/// Whether a layer is the surface itself: one that covers the whole of it, and no halo, no edge
/// band and no displaced shadow.
pub open spec fn is_body(layer: Layer) -> bool {
    &&& layer.kind == PrimKind::Rect || layer.kind == PrimKind::Gradient || layer.kind
        == PrimKind::Sweep || layer.kind == PrimKind::Field || layer.kind == PrimKind::Pbr
    &&& layer.edge is None
    &&& layer.inset == 0
    &&& layer.offset == 0
}

/// The first body among the layers.
pub open spec fn first_body(layers: Seq<Layer>) -> Option<Layer>
    decreases layers.len(),
{
    if layers.len() == 0 {
        None
    } else if is_body(layers[0]) {
        Some(layers[0])
    } else {
        first_body(layers.drop_first())
    }
}

/// The first lit surface among the layers.
pub open spec fn first_lit(layers: Seq<Layer>) -> Option<Layer>
    decreases layers.len(),
{
    if layers.len() == 0 {
        None
    } else if layers[0].kind == PrimKind::Pbr {
        Some(layers[0])
    } else {
        first_lit(layers.drop_first())
    }
}

/// The first layer that gives the room light.
pub open spec fn first_emitter(layers: Seq<Layer>) -> Option<Layer>
    decreases layers.len(),
{
    if layers.len() == 0 {
        None
    } else if layers[0].emits_strength > 0 && layers[0].emits.a > 0 {
        Some(layers[0])
    } else {
        first_emitter(layers.drop_first())
    }
}

/// What the lighting pass sees of a body that has landed at `shape`.
pub open spec fn slab_at(layers: Seq<Layer>, body: Layer, shape: Shape, elevation: int) -> Slab {
    Slab {
        shape: if body.kind == PrimKind::Field {
            Shape { radius: 0, ..shape }
        } else {
            shape
        },
        elevation: elevation as Micros,
        thickness: elevation as Micros,
        albedo: body.flat,
        roughness: match first_lit(layers) {
            Some(lit) => lit.roughness,
            None => 1_000_000,
        },
        metalness: match first_lit(layers) {
            Some(lit) => lit.metallic,
            None => 0,
        },
        emission: match first_emitter(layers) {
            Some(emitter) => emitter.emits,
            None => Srgba::clear(),
        },
        emission_strength: match first_emitter(layers) {
            Some(emitter) => emitter.emits_strength,
            None => 0,
        },
        attenuation_floor: 1_000_000,
        addition_max: 0,
    }
}

/// What the lighting pass sees of a material on a surface.
pub open spec fn slab_of(layers: Seq<Layer>, elevation: int, surface: Surface) -> Option<Slab> {
    if !shows_anything(layers) {
        None
    } else {
        match first_body(layers) {
            None => None,
            Some(body) => match body.lands(surface) {
                None => None,
                Some(shape) => Some(
                    slab_at(layers, body, shape, times(elevation, surface.scale as int)),
                ),
            },
        }
    }
}

impl Material {
    /// The first body among the layers.
    fn body(&self) -> (result: Option<Layer>)
        ensures
            result == first_body(self.layers@),
            self.sane() && result is Some ==> result->0.sane(),
    {
        let mut i: usize = 0;
        assert(self.layers@.skip(0) =~= self.layers@);
        while i < self.layers.len()
            invariant
                i <= self.layers@.len(),
                first_body(self.layers@) == first_body(self.layers@.skip(i as int)),
            decreases self.layers@.len() - i,
        {
            assert(self.layers@.skip(i as int).drop_first() =~= self.layers@.skip(i as int + 1));
            let layer: Layer = self.layers[i];
            let covers: bool = match layer.kind {
                PrimKind::Rect => true,
                PrimKind::Gradient => true,
                PrimKind::Sweep => true,
                PrimKind::Field => true,
                PrimKind::Pbr => true,
                _ => false,
            };
            if covers && layer.edge.is_none() && layer.inset == 0 && layer.offset == 0 {
                return Some(layer);
            }
            i = i + 1;
        }
        None
    }

    /// The first lit surface among the layers.
    fn lit(&self) -> (result: Option<Layer>)
        ensures
            result == first_lit(self.layers@),
    {
        let mut i: usize = 0;
        assert(self.layers@.skip(0) =~= self.layers@);
        while i < self.layers.len()
            invariant
                i <= self.layers@.len(),
                first_lit(self.layers@) == first_lit(self.layers@.skip(i as int)),
            decreases self.layers@.len() - i,
        {
            assert(self.layers@.skip(i as int).drop_first() =~= self.layers@.skip(i as int + 1));
            if self.layers[i].kind == PrimKind::Pbr {
                return Some(self.layers[i]);
            }
            i = i + 1;
        }
        None
    }

    /// The first layer that gives the room light.
    fn emitter(&self) -> (result: Option<Layer>)
        ensures
            result == first_emitter(self.layers@),
    {
        let mut i: usize = 0;
        assert(self.layers@.skip(0) =~= self.layers@);
        while i < self.layers.len()
            invariant
                i <= self.layers@.len(),
                first_emitter(self.layers@) == first_emitter(self.layers@.skip(i as int)),
            decreases self.layers@.len() - i,
        {
            assert(self.layers@.skip(i as int).drop_first() =~= self.layers@.skip(i as int + 1));
            if self.layers[i].emits_strength > 0 && self.layers[i].emits.a > 0 {
                return Some(self.layers[i]);
            }
            i = i + 1;
        }
        None
    }

    /// This material as the lighting pass sees it: one slab in the shape of its body, in the
    /// colour that the body collapses to. Nothing for a material that shows nothing, or that
    /// nowhere covers its surface.
    pub fn slab(&self, surface: Surface) -> (result: Option<Slab>)
        requires
            self.sane(),
            fits(self.elevation as int),
            surface.sane(),
        ensures
            result == slab_of(self.layers@, self.elevation as int, surface),
    {
        if !occupies_scene(self) {
            return None;
        }
        let body: Layer = match self.body() {
            None => return None,
            Some(body) => body,
        };
        let landed: Shape = match layer_shape(body, surface) {
            None => return None,
            Some(shape) => shape,
        };
        let shape: Shape = if body.kind == PrimKind::Field {
            Shape { radius: 0, ..landed }
        } else {
            landed
        };
        let (roughness, metalness): (Micros, Micros) = match self.lit() {
            Some(lit) => (lit.roughness, lit.metallic),
            None => (MICRO, 0),
        };
        let (emission, emission_strength): (Srgba, Micros) = match self.emitter() {
            Some(emitter) => (emitter.emits, emitter.emits_strength),
            None => (Srgba::transparent(), 0),
        };
        let elevation: Micros = product(self.elevation, surface.scale);
        // It stands on the canvas, and no darkening is permitted until somebody permits it.
        Some(
            Slab {
                shape,
                elevation,
                thickness: elevation,
                albedo: body.flat,
                roughness,
                metalness,
                emission,
                emission_strength,
                attenuation_floor: MICRO,
                addition_max: 0,
            },
        )
    }
}

/// A body lies exactly on its surface.
pub proof fn a_body_covers_its_surface(body: Layer, surface: Surface)
    requires
        is_body(body),
    ensures
        body.frame(surface).x == surface.x,
        body.frame(surface).y == surface.y,
        body.frame(surface).w == surface.w,
        body.frame(surface).h == surface.h,
{
    assert(0 * surface.scale as int == 0);
    assert(surface.shadow_x * 0 == 0);
    assert(surface.shadow_y * 0 == 0);
}

/// The slab of a material is exactly where one of its own instances is: the two descriptions of
/// a frame cannot drift apart, at any drive.
pub proof fn a_slab_is_where_an_instance_is(
    layers: Seq<Layer>,
    elevation: int,
    surface: Surface,
    alpha: Micros,
    drive: Drive,
)
    requires
        slab_of(layers, elevation, surface) is Some,
        alpha > 0,
    ensures
        exists|i: int|
            0 <= i < material_draws(layers, surface, alpha, drive, None, true).len() && (
            #[trigger] material_draws(layers, surface, alpha, drive, None, true)[i]).place()
                == slab_of(layers, elevation, surface)->0.shape,
{
    let a = clamped(alpha as int, 0, 1_000_000);
    let bleed = pass_over(
        layers,
        layers.len() as int,
        Pass::Bleed,
        surface,
        a,
        drive,
        None,
        true,
    );
    let body = pass_over(
        layers,
        layers.len() as int,
        Pass::Body,
        surface,
        a,
        drive,
        None,
        true,
    );
    let k = lemma_where_the_body_is(layers);
    lemma_the_body_is_drawn(layers, layers.len() as int, k, surface, a, drive);
    let i = choose|i: int|
        0 <= i < body.len() && (#[trigger] body[i]).place() == shared_shape(layers[k], surface);
    let all = material_draws(layers, surface, alpha, drive, None, true);
    assert(all[bleed.len() + i] == body[i]);
}

/// The shape that a body's instance and its slab share.
spec fn shared_shape(body: Layer, surface: Surface) -> Shape {
    let shape = body.frame(surface);
    if body.kind == PrimKind::Field {
        Shape { radius: 0, ..shape }
    } else {
        shape
    }
}

proof fn lemma_where_the_body_is(layers: Seq<Layer>) -> (k: int)
    requires
        first_body(layers) is Some,
    ensures
        0 <= k < layers.len(),
        layers[k] == first_body(layers)->0,
        is_body(layers[k]),
    decreases layers.len(),
{
    if is_body(layers[0]) {
        0
    } else {
        lemma_where_the_body_is(layers.drop_first()) + 1
    }
}

proof fn lemma_the_body_is_drawn(
    layers: Seq<Layer>,
    count: int,
    k: int,
    surface: Surface,
    alpha: int,
    drive: Drive,
)
    requires
        0 <= k < count <= layers.len(),
        is_body(layers[k]),
        layers[k].lands(surface) is Some,
    ensures
        exists|i: int|
            0 <= i < pass_over(
                layers,
                count,
                Pass::Body,
                surface,
                alpha,
                drive,
                None,
                true,
            ).len() && (#[trigger] pass_over(
                layers,
                count,
                Pass::Body,
                surface,
                alpha,
                drive,
                None,
                true,
            )[i]).place() == shared_shape(layers[k], surface),
    decreases count,
{
    let now = pass_over(layers, count, Pass::Body, surface, alpha, drive, None, true);
    let below = pass_over(layers, count - 1, Pass::Body, surface, alpha, drive, None, true);
    if k == count - 1 {
        let loud = layers[k].at_drive(drive);
        assert(loud.frame(surface) == layers[k].frame(surface));
        assert(now[below.len() as int].place() == shared_shape(layers[k], surface));
    } else {
        lemma_the_body_is_drawn(layers, count - 1, k, surface, alpha, drive);
        let i = choose|i: int|
            0 <= i < below.len() && (#[trigger] below[i]).place() == shared_shape(
                layers[k],
                surface,
            );
        assert(now[i] == below[i]);
    }
}

/// What covers its surface is what is painted over all of it: a fill, a ramp of either sort, a field or a
/// lit surface, without an inset, a displacement or an edge that it is a band of.
pub proof fn a_body_is_what_covers_its_surface(layer: Layer)
    ensures
        is_body(layer) <==> layer.kind != PrimKind::Glow && layer.kind != PrimKind::Stroke && layer.kind
            != PrimKind::Rim && layer.kind != PrimKind::Glyph && layer.edge is None && layer.inset == 0
            && layer.offset == 0,
{
}

/// A shadow is thrown further by a shallower light, and by a longer run, and as far as the run for a light
/// that drops as much as it runs.
pub proof fn shallow_lights_throw_further(run: int, more: int, drop: int, less: int)
    requires
        0 <= run <= more,
        50_000 <= less <= drop,
    ensures
        0 <= throw(run, drop) <= throw(more, less),
        throw(run, -drop) == throw(run, drop),
        throw(drop, drop) == 1_000_000,
        0 <= run * 1_000_000 - throw(run, drop) * drop < drop,
{
    let a = run * 1_000_000;
    let b = more * 1_000_000;
    assert(0 <= a / drop <= b / less) by (nonlinear_arith)
        requires
            0 <= a <= b,
            0 < less <= drop,
    ;
    assert((drop * 1_000_000) / drop == 1_000_000) by (nonlinear_arith)
        requires
            drop > 0,
    ;
    assert(0 <= a - (a / drop) * drop < drop) by (nonlinear_arith)
        requires
            drop > 0,
    ;
}

proof fn lemma_no_body_before(layers: Seq<Layer>, k: int)
    requires
        0 <= k < layers.len(),
        is_body(layers[k]),
    ensures
        first_body(layers) is Some,
        (forall|j: int| 0 <= j < k ==> !is_body(#[trigger] layers[j])) ==> first_body(layers) == Some(
            layers[k],
        ),
    decreases layers.len(),
{
    if !is_body(layers[0]) {
        let rest = layers.drop_first();
        assert(rest[k - 1] == layers[k]);
        lemma_no_body_before(rest, k - 1);
        if forall|j: int| 0 <= j < k ==> !is_body(#[trigger] layers[j]) {
            assert forall|j: int| 0 <= j < k - 1 implies !is_body(#[trigger] rest[j]) by {
                assert(rest[j] == layers[j + 1]);
            }
        }
    }
}

proof fn lemma_the_first_body_is_first(layers: Seq<Layer>) -> (k: int)
    requires
        first_body(layers) is Some,
    ensures
        0 <= k < layers.len(),
        layers[k] == first_body(layers)->0,
        is_body(layers[k]),
        forall|j: int| 0 <= j < k ==> !is_body(#[trigger] layers[j]),
    decreases layers.len(),
{
    if is_body(layers[0]) {
        0
    } else {
        let rest = layers.drop_first();
        let k = lemma_the_first_body_is_first(rest);
        assert forall|j: int| 0 <= j < k + 1 implies !is_body(#[trigger] layers[j]) by {
            if j > 0 {
                assert(rest[j - 1] == layers[j]);
            }
        }
        k + 1
    }
}

/// A material has a slab exactly where any of it shows, some layer of it covers its surface, and the
/// surface has an extent.
pub proof fn only_what_shows_and_covers_has_a_slab(
    layers: Seq<Layer>,
    elevation: int,
    surface: Surface,
)
    requires
        surface.sane(),
    ensures
        slab_of(layers, elevation, surface) is Some <==> surface.w > 0 && surface.h > 0 && (exists|
            i: int,
        |
            0 <= i < layers.len() && ((#[trigger] layers[i]).near.a > 0 || layers[i].far.a > 0)) && (
        exists|i: int| 0 <= i < layers.len() && is_body(#[trigger] layers[i])),
{
    if first_body(layers) is Some {
        let k = lemma_the_first_body_is_first(layers);
        a_body_covers_its_surface(layers[k], surface);
        assert(is_body(layers[k]));
    } else {
        if exists|i: int| 0 <= i < layers.len() && is_body(#[trigger] layers[i]) {
            let i = choose|i: int| 0 <= i < layers.len() && is_body(#[trigger] layers[i]);
            lemma_no_body_before(layers, i);
        }
    }
}

/// A slab is the lowest layer that covers the surface, as the light sees it: on the surface exactly, in
/// the colour that the layer collapses to, standing on the canvas as high as its material sits. So a
/// material that is one opaque fill has a slab of that fill's colour.
pub proof fn a_slab_has_the_colour_of_its_body(
    layers: Seq<Layer>,
    elevation: int,
    surface: Surface,
    k: int,
)
    requires
        slab_of(layers, elevation, surface) is Some,
        surface.sane(),
        fits(elevation),
        0 <= k < layers.len(),
        is_body(layers[k]),
        forall|j: int| 0 <= j < k ==> !is_body(#[trigger] layers[j]),
    ensures
        ({
            let slab = slab_of(layers, elevation, surface)->0;
            &&& slab.albedo == layers[k].flat
            &&& slab.shape.x == surface.x
            &&& slab.shape.y == surface.y
            &&& slab.shape.w == surface.w
            &&& slab.shape.h == surface.h
            &&& layers[k].kind == PrimKind::Field ==> slab.shape.radius == 0
            &&& layers[k].kind != PrimKind::Field && layers[k].radius is None ==> slab.shape.radius
                == max_of(surface.radius as int, 0)
            &&& slab.elevation == times(elevation, surface.scale as int)
            &&& slab.thickness == slab.elevation
            &&& slab.attenuation_floor == 1_000_000
            &&& slab.addition_max == 0
        }),
{
    lemma_no_body_before(layers, k);
    a_body_covers_its_surface(layers[k], surface);
    assert(0 * surface.scale as int == 0);
    let e = elevation;
    let s = surface.scale as int;
    assert(-2_000_000_000_000_000_000_000_000_000_000 <= e * s
        <= 2_000_000_000_000_000_000_000_000_000_000) by (nonlinear_arith)
        requires
            -1_152_921_504_606_846_976 <= e <= 1_152_921_504_606_846_976,
            -1_000_000_000_000 <= s <= 1_000_000_000_000,
    ;
}

/// A slab shows the colour that the material's body is drawn in with effects off, at the very place of
/// the slab.
pub proof fn a_slab_is_coloured_as_its_flat_body(
    layers: Seq<Layer>,
    elevation: int,
    surface: Surface,
    k: int,
)
    requires
        slab_of(layers, elevation, surface) is Some,
        surface.sane(),
        fits(elevation),
        0 <= k < layers.len(),
        is_body(layers[k]),
        layers[k].sane(),
        forall|j: int| 0 <= j < k ==> !is_body(#[trigger] layers[j]),
        layers[k].kind == PrimKind::Rect ==> layers[k].near == layers[k].flat,
    ensures
        layers[k].drawn(surface, 1_000_000, false) matches Some(
            crate::material::compile::Instance::Rect { shape, color },
        ) && color == slab_of(layers, elevation, surface)->0.albedo && shape.x == slab_of(
            layers,
            elevation,
            surface,
        )->0.shape.x && shape.y == slab_of(layers, elevation, surface)->0.shape.y && shape.w
            == slab_of(layers, elevation, surface)->0.shape.w && shape.h == slab_of(
            layers,
            elevation,
            surface,
        )->0.shape.h,
{
    a_slab_has_the_colour_of_its_body(layers, elevation, surface, k);
    a_body_covers_its_surface(layers[k], surface);
    lemma_no_body_before(layers, k);
    crate::material::compile::a_layer_is_drawn_as_what_it_is(layers[k], surface);
}

proof fn lemma_the_first_lit(layers: Seq<Layer>, k: int)
    requires
        0 <= k < layers.len(),
        layers[k].kind == PrimKind::Pbr,
        forall|j: int| 0 <= j < k ==> (#[trigger] layers[j]).kind != PrimKind::Pbr,
    ensures
        first_lit(layers) == Some(layers[k]),
    decreases layers.len(),
{
    if k > 0 {
        let rest = layers.drop_first();
        assert(layers[0].kind != PrimKind::Pbr);
        assert forall|j: int| 0 <= j < k - 1 implies (#[trigger] rest[j]).kind != PrimKind::Pbr by {
            assert(rest[j] == layers[j + 1]);
        }
        lemma_the_first_lit(rest, k - 1);
    }
}

proof fn lemma_nothing_lit(layers: Seq<Layer>)
    requires
        forall|j: int| 0 <= j < layers.len() ==> (#[trigger] layers[j]).kind != PrimKind::Pbr,
    ensures
        first_lit(layers) is None,
    decreases layers.len(),
{
    if layers.len() > 0 {
        let rest = layers.drop_first();
        assert forall|j: int| 0 <= j < rest.len() implies (#[trigger] rest[j]).kind
            != PrimKind::Pbr by {
            assert(rest[j] == layers[j + 1]);
        }
        lemma_nothing_lit(rest);
    }
}

proof fn lemma_the_first_emitter(layers: Seq<Layer>, k: int)
    requires
        0 <= k < layers.len(),
        layers[k].emits_strength > 0 && layers[k].emits.a > 0,
        forall|j: int|
            0 <= j < k ==> !((#[trigger] layers[j]).emits_strength > 0 && layers[j].emits.a > 0),
    ensures
        first_emitter(layers) == Some(layers[k]),
    decreases layers.len(),
{
    if k > 0 {
        let rest = layers.drop_first();
        assert(!(layers[0].emits_strength > 0 && layers[0].emits.a > 0));
        assert forall|j: int| 0 <= j < k - 1 implies !((#[trigger] rest[j]).emits_strength > 0
            && rest[j].emits.a > 0) by {
            assert(rest[j] == layers[j + 1]);
        }
        lemma_the_first_emitter(rest, k - 1);
    }
}

proof fn lemma_nothing_emits(layers: Seq<Layer>)
    requires
        forall|j: int|
            0 <= j < layers.len() ==> !((#[trigger] layers[j]).emits_strength > 0
                && layers[j].emits.a > 0),
    ensures
        first_emitter(layers) is None,
    decreases layers.len(),
{
    if layers.len() > 0 {
        let rest = layers.drop_first();
        assert forall|j: int| 0 <= j < rest.len() implies !((#[trigger] rest[j]).emits_strength > 0
            && rest[j].emits.a > 0) by {
            assert(rest[j] == layers[j + 1]);
        }
        lemma_nothing_emits(rest);
    }
}

/// A slab is as rough and as metallic as the lowest lit layer of its material, and wholly rough and not
/// metallic at all where there is none.
pub proof fn a_slab_is_as_rough_as_its_lit_layer(
    layers: Seq<Layer>,
    elevation: int,
    surface: Surface,
    k: int,
)
    requires
        slab_of(layers, elevation, surface) is Some,
        0 <= k <= layers.len(),
        k < layers.len() ==> layers[k].kind == PrimKind::Pbr,
        forall|j: int| 0 <= j < k ==> (#[trigger] layers[j]).kind != PrimKind::Pbr,
    ensures
        ({
            let slab = slab_of(layers, elevation, surface)->0;
            &&& k < layers.len() ==> slab.roughness == layers[k].roughness && slab.metalness
                == layers[k].metallic
            &&& k == layers.len() ==> slab.roughness == 1_000_000 && slab.metalness == 0
        }),
{
    if k < layers.len() {
        lemma_the_first_lit(layers, k);
    } else {
        lemma_nothing_lit(layers);
    }
}

/// A slab gives the room the light of the lowest layer of its material that gives any, and none where
/// there is no such layer.
pub proof fn a_slab_gives_the_light_of_its_emitter(
    layers: Seq<Layer>,
    elevation: int,
    surface: Surface,
    k: int,
)
    requires
        slab_of(layers, elevation, surface) is Some,
        0 <= k <= layers.len(),
        k < layers.len() ==> layers[k].emits_strength > 0 && layers[k].emits.a > 0,
        forall|j: int|
            0 <= j < k ==> !((#[trigger] layers[j]).emits_strength > 0 && layers[j].emits.a > 0),
    ensures
        ({
            let slab = slab_of(layers, elevation, surface)->0;
            &&& k < layers.len() ==> slab.emission == layers[k].emits && slab.emission_strength
                == layers[k].emits_strength
            &&& k == layers.len() ==> slab.emission.a == 0 && slab.emission_strength == 0
        }),
{
    if k < layers.len() {
        lemma_the_first_emitter(layers, k);
    } else {
        lemma_nothing_emits(layers);
    }
}

/// One frame's scene. `E` is the environment and `L` the key light, which pass through.
#[derive(Debug)]
pub struct SceneList<E, L> {
    /// The frame it belongs to.
    pub generation: u64,
    /// What surrounds it.
    pub environment: E,
    /// Its surfaces, in the order they were painted.
    pub slabs: Vec<Slab>,
    /// How many surfaces there was no room for.
    pub dropped: u64,
    /// The key light.
    pub key_light: Option<L>,
    /// The focus lamp, while something has keyboard focus.
    pub focus_light: Option<FocusLamp>,
}

/// Whether a rectangle reaches a viewport that is widened by `margin` on every side.
pub open spec fn reaches(shape: Shape, viewport: (Micros, Micros), margin: int) -> bool {
    &&& shape.x < viewport.0 + margin
    &&& shape.x + shape.w > -margin
    &&& shape.y < viewport.1 + margin
    &&& shape.y + shape.h > -margin
}

/// Builds one frame's scene from the materials and surfaces that the draw list is painted from.
#[derive(Debug)]
pub struct SceneBuilder<E, L> {
    scene: SceneList<E, L>,
    viewport: (Micros, Micros),
    margin: Micros,
    ceiling: usize,
}

impl<E, L> SceneBuilder<E, L> {
    /// The scene so far.
    pub closed spec fn so_far(self) -> SceneList<E, L> {
        self.scene
    }

    /// The viewport.
    pub closed spec fn window(self) -> (Micros, Micros) {
        self.viewport
    }

    /// How far past the viewport the scene reaches.
    pub closed spec fn reach(self) -> int {
        self.margin as int
    }

    /// How many surfaces there is room for.
    pub closed spec fn room(self) -> nat {
        self.ceiling as nat
    }

    #[verifier::type_invariant]
    spec fn well_formed(self) -> bool {
        &&& fits(self.viewport.0 as int)
        &&& fits(self.viewport.1 as int)
        &&& 0 <= self.margin <= 1_152_921_504_606_846_976
    }

    /// Start a scene for the frame `generation`, cut off at `viewport` widened by `margin`, with
    /// room for `ceiling` surfaces. A negative margin counts as none.
    pub fn new(
        generation: u64,
        viewport: (Micros, Micros),
        margin: Micros,
        environment: E,
        ceiling: usize,
    ) -> (result: Self)
        requires
            fits(viewport.0 as int),
            fits(viewport.1 as int),
            fits(margin as int),
        ensures
            result.so_far().generation == generation,
            result.so_far().environment == environment,
            result.so_far().slabs@ == Seq::<Slab>::empty(),
            result.so_far().dropped == 0,
            result.so_far().key_light is None,
            result.so_far().focus_light is None,
            result.window() == viewport,
            result.reach() == max_of(margin as int, 0),
            result.room() == ceiling,
    {
        SceneBuilder {
            scene: SceneList {
                generation,
                environment,
                slabs: Vec::new(),
                dropped: 0,
                key_light: None,
                focus_light: None,
            },
            viewport,
            margin: larger(margin, 0),
            ceiling,
        }
    }

    /// Whether `next` is this builder with `slab` offered to it: left out if it does not reach
    /// the widened viewport, counted as dropped if there is no room, and held otherwise.
    pub open spec fn admits(self, slab: Slab, next: Self) -> bool {
        let inside = reaches(slab.shape, self.window(), self.reach());
        let room = self.so_far().slabs@.len() < self.room();
        &&& next.window() == self.window()
        &&& next.reach() == self.reach()
        &&& next.room() == self.room()
        &&& next.so_far().generation == self.so_far().generation
        &&& next.so_far().environment == self.so_far().environment
        &&& next.so_far().key_light == self.so_far().key_light
        &&& next.so_far().focus_light == self.so_far().focus_light
        &&& next.so_far().slabs@ == if inside && room {
            self.so_far().slabs@.push(slab)
        } else {
            self.so_far().slabs@
        }
        &&& next.so_far().dropped == if inside && !room && self.so_far().dropped < u64::MAX {
            self.so_far().dropped + 1
        } else {
            self.so_far().dropped as int
        }
    }

    /// Add the slab of a painted material, if it takes up room and reaches the widened viewport.
    /// Called beside the painting, with the same surface.
    pub fn add(&mut self, material: &Material, surface: Surface)
        requires
            material.sane(),
            fits(material.elevation as int),
            surface.sane(),
        ensures
            match slab_of(material.layers@, material.elevation as int, surface) {
                None => *final(self) == *old(self),
                Some(slab) => old(self).admits(slab, *final(self)),
            },
    {
        if let Some(slab) = material.slab(surface) {
            proof {
                let k = lemma_where_the_body_is(material.layers@);
                a_body_covers_its_surface(material.layers@[k], surface);
            }
            self.accept(slab);
        }
    }

    /// Accept a slab that is already built.
    pub fn accept(&mut self, slab: Slab)
        requires
            i128::MIN <= slab.shape.x + slab.shape.w <= i128::MAX,
            i128::MIN <= slab.shape.y + slab.shape.h <= i128::MAX,
        ensures
            old(self).admits(slab, *final(self)),
    {
        proof {
            use_type_invariant(&*self);
        }
        let Shape { x, y, w, h, radius: _ } = slab.shape;
        let reach: Micros = self.margin;
        let inside: bool = x < self.viewport.0 + reach && x + w > -reach && y < self.viewport.1
            + reach && y + h > -reach;
        if inside {
            if self.scene.slabs.len() < self.ceiling {
                let mut slabs: Vec<Slab> = Vec::new();
                std::mem::swap(&mut slabs, &mut self.scene.slabs);
                slabs.push(slab);
                self.scene.slabs = slabs;
            } else if self.scene.dropped < u64::MAX {
                self.scene.dropped = self.scene.dropped + 1;
            }
        }
    }

    /// State the key light; the last call wins.
    pub fn set_key_light(&mut self, light: L)
        ensures
            final(self).so_far() == (SceneList {
                key_light: Some(light),
                ..old(self).so_far()
            }),
            final(self).window() == old(self).window(),
            final(self).reach() == old(self).reach(),
            final(self).room() == old(self).room(),
    {
        proof {
            use_type_invariant(&*self);
        }
        self.scene.key_light = Some(light);
    }

    /// State the focus lamp, which is there only while something has keyboard focus.
    pub fn set_focus_light(&mut self, lamp: Option<FocusLamp>)
        ensures
            final(self).so_far() == (SceneList { focus_light: lamp, ..old(self).so_far() }),
            final(self).window() == old(self).window(),
            final(self).reach() == old(self).reach(),
            final(self).room() == old(self).room(),
    {
        proof {
            use_type_invariant(&*self);
        }
        self.scene.focus_light = lamp;
    }

    /// The finished scene.
    pub fn finish(self) -> (result: SceneList<E, L>)
        ensures
            result == self.so_far(),
    {
        self.scene
    }

    /// The slab that was accepted last.
    pub fn last(&self) -> (result: Option<&Slab>)
        ensures
            result == if self.so_far().slabs@.len() == 0 {
                None
            } else {
                Some(&self.so_far().slabs@.last())
            },
    {
        let n: usize = self.scene.slabs.len();
        if n == 0 {
            None
        } else {
            Some(&self.scene.slabs[n - 1])
        }
    }
}

/// Something is in reach exactly where a point of it lies in the viewport, widened by the margin on
/// every side.
pub proof fn in_reach_is_in_the_widened_viewport(
    shape: Shape,
    viewport: (Micros, Micros),
    margin: int,
)
    requires
        shape.w > 0,
        shape.h > 0,
        viewport.0 + 2 * margin > 0,
        viewport.1 + 2 * margin > 0,
    ensures
        reaches(shape, viewport, margin) <==> exists|x: int, y: int|
            #![trigger is_point_of(shape, x, y)]
            {
                &&& is_point_of(shape, x, y)
                &&& -margin <= x < viewport.0 + margin
                &&& -margin <= y < viewport.1 + margin
            },
{
    if reaches(shape, viewport, margin) {
        let x = max_of(shape.x as int, -margin);
        let y = max_of(shape.y as int, -margin);
        assert(is_point_of(shape, x, y));
    }
}

/// Whether a point lies on a shape.
pub open spec fn is_point_of(shape: Shape, x: int, y: int) -> bool {
    &&& shape.x <= x < shape.x + shape.w
    &&& shape.y <= y < shape.y + shape.h
}

/// A surface that is offered to a scene is taken, or it is counted as one there was no room for, or it
/// is out of reach. What is taken comes last and is the surface itself; what was taken before stays.
pub proof fn a_surface_is_taken_or_counted<E, L>(
    before: SceneBuilder<E, L>,
    slab: Slab,
    after: SceneBuilder<E, L>,
)
    requires
        before.admits(slab, after),
        before.so_far().dropped < u64::MAX,
    ensures
        ({
            let held = before.so_far().slabs@;
            let holds = after.so_far().slabs@;
            let turned = after.so_far().dropped - before.so_far().dropped;
            &&& reaches(slab.shape, before.window(), before.reach()) <==> (holds.len() - held.len())
                + turned == 1
            &&& !reaches(slab.shape, before.window(), before.reach()) <==> (holds.len()
                - held.len()) + turned == 0
            &&& turned >= 0
            &&& turned > 0 ==> held.len() >= before.room()
            &&& holds.len() > held.len() ==> holds.len() <= before.room() && holds == held.push(slab)
            &&& holds.len() == held.len() ==> holds == held
        }),
{
}

} // verus!

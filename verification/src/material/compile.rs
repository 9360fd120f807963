//! From layers to draw instances.

use crate::material::{
    layer_shape, modest, scaled, Drive, Fidelity, Floor, Layer, Material, Pass, PrimKind, Shape,
    Srgba, Substance, Surface,
};
use crate::units::{
    clamped, fits, hold_between, larger, max_of, product, times, times_is_bounded, Micros, MICRO,
};
use vstd::prelude::*;

verus! {

/// One primitive to draw, in physical pixels.
#[derive(Clone, Copy, PartialEq, Eq, Debug, Structural)]
pub enum Instance {
    /// A flat rounded rectangle.
    Rect {
        /// Where.
        shape: Shape,
        /// Its colour.
        color: Srgba,
    },
    /// A ramp across the shape.
    Gradient {
        /// Where.
        shape: Shape,
        /// The direction of its axis, in degrees.
        angle: Micros,
        /// The near stop.
        near: Srgba,
        /// The far stop.
        far: Srgba,
    },
    /// A ramp around the shape.
    Sweep {
        /// Where.
        shape: Shape,
        /// Where it starts, in degrees.
        angle: Micros,
        /// The near stop.
        near: Srgba,
        /// The far stop.
        far: Srgba,
    },
    /// The ambient colour field, which is never rounded: there is nothing behind it to show.
    Field {
        /// Where.
        shape: Shape,
        /// How much of the field's colour reaches its ground.
        amplitude: Micros,
        /// Where the field is in its cycle, in degrees.
        angle: Micros,
        /// Its ground.
        ground: Srgba,
    },
    /// The shape with a halo around it.
    Glow {
        /// The shape inside the halo.
        shape: Shape,
        /// How far the halo falls off.
        reach: Micros,
        /// Its colour at the shape.
        near: Srgba,
        /// Its colour where it ends.
        far: Srgba,
    },
    /// An inside-aligned stroke.
    Stroke {
        /// Where.
        shape: Shape,
        /// How wide.
        width: Micros,
        /// Its colour.
        color: Srgba,
    },
    /// A soft light just inside the edge.
    Rim {
        /// Where.
        shape: Shape,
        /// How far it reaches inward.
        width: Micros,
        /// Its colour.
        color: Srgba,
    },
    /// A bevelled, lit surface.
    Pbr {
        /// Where.
        shape: Shape,
        /// Lit-edge width.
        bevel: Micros,
        /// Roughness.
        roughness: Micros,
        /// Metalness.
        metallic: Micros,
        /// Environment strength.
        env: Micros,
        /// Edge emission.
        emission: Micros,
        /// Its colour when it is not lit.
        albedo: Srgba,
    },
}

impl Instance {
    /// Where the instance is.
    pub open spec fn place(self) -> Shape {
        match self {
            Instance::Rect { shape, .. } => shape,
            Instance::Gradient { shape, .. } => shape,
            Instance::Sweep { shape, .. } => shape,
            Instance::Field { shape, .. } => shape,
            Instance::Glow { shape, .. } => shape,
            Instance::Stroke { shape, .. } => shape,
            Instance::Rim { shape, .. } => shape,
            Instance::Pbr { shape, .. } => shape,
        }
    }

    /// Where the instance is.
    pub fn shape(&self) -> (result: Shape)
        ensures
            result == self.place(),
    {
        match self {
            Instance::Rect { shape, .. } => *shape,
            Instance::Gradient { shape, .. } => *shape,
            Instance::Sweep { shape, .. } => *shape,
            Instance::Field { shape, .. } => *shape,
            Instance::Glow { shape, .. } => *shape,
            Instance::Stroke { shape, .. } => *shape,
            Instance::Rim { shape, .. } => *shape,
            Instance::Pbr { shape, .. } => *shape,
        }
    }
}

impl Layer {
    /// Whether the layer is left out with effects off: a tier that cannot draw it draws less,
    /// and it names no flat form to collapse to.
    pub open spec fn needs_effects(self) -> bool {
        &&& self.kind.promise() != Fidelity::Exact
        &&& self.kind != PrimKind::Pbr
        &&& self.kind != PrimKind::Field
    }

    /// The flat rectangle that a layer collapses to.
    pub open spec fn flattened(self, shape: Shape, alpha: int) -> Instance {
        Instance::Rect { shape, color: self.flat.times_alpha(alpha) }
    }

    /// What a layer that has landed at `shape` draws.
    pub open spec fn drawn_at(self, shape: Shape, scale: int, alpha: int, effects: bool) -> Option<
        Instance,
    > {
        let near = self.near.times_alpha(alpha);
        let far = self.far.times_alpha(alpha);
        match self.kind {
            PrimKind::Rect => Some(Instance::Rect { shape, color: near }),
            PrimKind::Gradient => Some(
                if effects {
                    Instance::Gradient { shape, angle: self.angle, near, far }
                } else {
                    self.flattened(shape, alpha)
                },
            ),
            PrimKind::Sweep => Some(
                if effects {
                    Instance::Sweep { shape, angle: self.angle, near, far }
                } else {
                    self.flattened(shape, alpha)
                },
            ),
            PrimKind::Field => Some(
                if effects {
                    Instance::Field {
                        shape: Shape { radius: 0, ..shape },
                        amplitude: self.amplitude,
                        angle: self.angle,
                        ground: near,
                    }
                } else {
                    self.flattened(shape, alpha)
                },
            ),
            PrimKind::Pbr => Some(
                if effects {
                    Instance::Pbr {
                        shape,
                        bevel: times(self.bevel as int, scale) as Micros,
                        roughness: self.roughness,
                        metallic: self.metallic,
                        env: self.env,
                        emission: self.emission,
                        albedo: near,
                    }
                } else {
                    self.flattened(shape, alpha)
                },
            ),
            PrimKind::Glow => Some(
                Instance::Glow {
                    shape,
                    reach: times(self.reach as int, scale) as Micros,
                    near,
                    far,
                },
            ),
            PrimKind::Stroke => Some(
                Instance::Stroke {
                    shape,
                    width: times(self.width as int, scale) as Micros,
                    color: near,
                },
            ),
            PrimKind::Rim => Some(
                Instance::Rim {
                    shape,
                    width: times(self.width as int, scale) as Micros,
                    color: near,
                },
            ),
            PrimKind::Glyph => None,
        }
    }

    /// What a layer draws on `surface`, as loud as it already is.
    pub open spec fn drawn(self, surface: Surface, alpha: int, effects: bool) -> Option<Instance> {
        if !effects && self.needs_effects() {
            None
        } else {
            match self.lands(surface) {
                None => None,
                Some(shape) => self.drawn_at(shape, surface.scale as int, alpha, effects),
            }
        }
    }

    /// What this layer draws on `surface`, as loud as it already is.
    fn instance(self, surface: Surface, alpha: Micros, effects: bool) -> (result: Option<Instance>)
        requires
            modest(self.inset as int),
            modest(self.offset as int),
            modest(self.thickness as int),
            self.radius matches Some(radius) ==> modest(radius as int),
            self.near.valid(),
            self.far.valid(),
            self.flat.valid(),
            fits(self.reach as int),
            fits(self.width as int),
            modest(self.bevel as int),
            surface.sane(),
            0 <= alpha <= MICRO,
        ensures
            result == self.drawn(surface, alpha as int, effects),
    {
        // A halo has no flat form: an opaque stand-in for it is a hard rectangle. A lit surface
        // and a field have one, their albedo and their ground.
        let exact: bool = match self.kind.fidelity() {
            Fidelity::Exact => true,
            _ => false,
        };
        if !effects && !exact && self.kind != PrimKind::Pbr && self.kind != PrimKind::Field {
            return None;
        }
        let shape: Shape = match layer_shape(self, surface) {
            None => return None,
            Some(shape) => shape,
        };
        let near: Srgba = scaled(self.near, alpha);
        let far: Srgba = scaled(self.far, alpha);
        let flat: Instance = Instance::Rect { shape, color: scaled(self.flat, alpha) };
        match self.kind {
            PrimKind::Rect => Some(Instance::Rect { shape, color: near }),
            PrimKind::Gradient => if effects {
                Some(Instance::Gradient { shape, angle: self.angle, near, far })
            } else {
                Some(flat)
            },
            PrimKind::Sweep => if effects {
                Some(Instance::Sweep { shape, angle: self.angle, near, far })
            } else {
                Some(flat)
            },
            PrimKind::Field => if effects {
                Some(
                    Instance::Field {
                        shape: Shape { radius: 0, ..shape },
                        amplitude: self.amplitude,
                        angle: self.angle,
                        ground: near,
                    },
                )
            } else {
                Some(flat)
            },
            // A lit surface flattens rather than disappearing: it is the body of the thing it
            // belongs to.
            PrimKind::Pbr => if effects {
                Some(
                    Instance::Pbr {
                        shape,
                        bevel: product(self.bevel, surface.scale),
                        roughness: self.roughness,
                        metallic: self.metallic,
                        env: self.env,
                        emission: self.emission,
                        albedo: near,
                    },
                )
            } else {
                Some(flat)
            },
            PrimKind::Glow => Some(
                Instance::Glow { shape, reach: product(self.reach, surface.scale), near, far },
            ),
            PrimKind::Stroke => Some(
                Instance::Stroke { shape, width: product(self.width, surface.scale), color: near },
            ),
            PrimKind::Rim => Some(
                Instance::Rim { shape, width: product(self.width, surface.scale), color: near },
            ),
            // A glyph is content rather than a look.
            PrimKind::Glyph => None,
        }
    }
}

/// What one pass over the first `count` layers draws, with an opacity of `alpha`.
pub open spec fn pass_over(
    layers: Seq<Layer>,
    count: int,
    pass: Pass,
    surface: Surface,
    alpha: int,
    drive: Drive,
    substance: Option<Substance>,
    effects: bool,
) -> Seq<Instance>
    decreases count,
{
    if count <= 0 {
        Seq::empty()
    } else {
        let below = pass_over(
            layers,
            count - 1,
            pass,
            surface,
            alpha,
            drive,
            substance,
            effects,
        );
        // The substance comes before the drive: a drive swells what a layer is.
        let layer = layers[count - 1].made_of(substance).at_drive(drive);
        if layers[count - 1].its_pass() == pass {
            match layer.drawn(surface, alpha, effects) {
                None => below,
                Some(instance) => below.push(instance),
            }
        } else {
            below
        }
    }
}

/// What one pass draws; nothing at all once the opacity is gone.
pub open spec fn pass_draws(
    layers: Seq<Layer>,
    pass: Pass,
    surface: Surface,
    alpha: Micros,
    drive: Drive,
    substance: Option<Substance>,
    effects: bool,
) -> Seq<Instance> {
    if alpha <= 0 {
        Seq::empty()
    } else {
        pass_over(
            layers,
            layers.len() as int,
            pass,
            surface,
            clamped(alpha as int, 0, 1_000_000),
            drive,
            substance,
            effects,
        )
    }
}

/// What a whole material draws: every halo, and then every body.
pub open spec fn material_draws(
    layers: Seq<Layer>,
    surface: Surface,
    alpha: Micros,
    drive: Drive,
    substance: Option<Substance>,
    effects: bool,
) -> Seq<Instance> {
    pass_draws(layers, Pass::Bleed, surface, alpha, drive, substance, effects) + pass_draws(
        layers,
        Pass::Body,
        surface,
        alpha,
        drive,
        substance,
        effects,
    )
}

/// Whether a substance's lengths can be scaled.
pub open spec fn substance_is_sane(substance: Option<Substance>) -> bool {
    substance matches Some(s) ==> modest(s.bevel as int)
}

/// The first kind among the first `count` layers that the tiers do not draw alike.
pub open spec fn promise_of(layers: Seq<Layer>) -> Fidelity
    decreases layers.len(),
{
    if layers.len() == 0 {
        Fidelity::Exact
    } else if layers[0].kind.promise() != Fidelity::Exact {
        layers[0].kind.promise()
    } else {
        promise_of(layers.drop_first())
    }
}

/// How far a layer reaches past its surface, in physical pixels.
pub open spec fn overhang(layer: Layer, scale: int, drive: Drive) -> int {
    if layer.kind == PrimKind::Glow {
        times(layer.at_drive(drive).reach - layer.inset, scale)
    } else {
        0
    }
}

/// The furthest that any of the layers reaches past its surface, and never less than zero.
pub open spec fn furthest_overhang(layers: Seq<Layer>, scale: int, drive: Drive) -> int
    decreases layers.len(),
{
    if layers.len() == 0 {
        0
    } else {
        max_of(
            furthest_overhang(layers.drop_last(), scale, drive),
            overhang(layers.last(), scale, drive),
        )
    }
}

/// The strongest shimmer among the lit surfaces, and never less than zero.
pub open spec fn strongest_flicker(layers: Seq<Layer>) -> int
    decreases layers.len(),
{
    if layers.len() == 0 {
        0
    } else if layers.last().kind == PrimKind::Pbr {
        max_of(strongest_flicker(layers.drop_last()), layers.last().flicker as int)
    } else {
        strongest_flicker(layers.drop_last())
    }
}

/// The first layer that burns, as a lit surface with an emission does.
pub open spec fn first_lamp(layers: Seq<Layer>) -> Option<Layer>
    decreases layers.len(),
{
    if layers.len() == 0 {
        None
    } else if layers[0].kind == PrimKind::Pbr && layers[0].emission > 0 {
        Some(layers[0])
    } else {
        first_lamp(layers.drop_first())
    }
}

/// The most that a lamp adds to its own ground, as a multiple of a colour.
#[derive(Clone, Copy, PartialEq, Eq, Debug, Structural)]
pub struct LampPeak {
    /// The colour.
    pub color: Srgba,
    /// How many times it.
    pub strength: Micros,
}

impl Material {
    /// The most a lamp's shape adds at any one pixel: its centre line and its lip never peak
    /// together, so that this is an over-estimate rather than a sample.
    pub const LAMP_PEAK: Micros = 1_300_000;

    /// Every layer is well formed.
    pub open spec fn sane(self) -> bool {
        forall|i: int| 0 <= i < self.layers@.len() ==> (#[trigger] self.layers@[i]).sane()
    }

    /// What the tiers owe this material: the first of its layers that they do not draw alike
    /// says.
    pub fn fidelity(&self) -> (result: Fidelity)
        ensures
            result == promise_of(self.layers@),
    {
        let mut i: usize = 0;
        assert(self.layers@.skip(0) =~= self.layers@);
        while i < self.layers.len()
            invariant
                i <= self.layers@.len(),
                promise_of(self.layers@) == promise_of(self.layers@.skip(i as int)),
            decreases self.layers@.len() - i,
        {
            assert(self.layers@.skip(i as int).drop_first() =~= self.layers@.skip(i as int + 1));
            let fidelity: Fidelity = self.layers[i].kind.fidelity();
            match fidelity {
                Fidelity::Exact => {},
                _ => {
                    return fidelity;
                },
            }
            i = i + 1;
        }
        Fidelity::Exact
    }

    /// Append this material's instances for one surface, halos first.
    pub fn compile(
        &self,
        surface: Surface,
        alpha: Micros,
        drive: Drive,
        effects: bool,
        out: &mut Vec<Instance>,
    )
        requires
            self.sane(),
            surface.sane(),
            drive.sane(),
        ensures
            final(out)@ == old(out)@ + material_draws(
                self.layers@,
                surface,
                alpha,
                drive,
                None,
                effects,
            ),
    {
        self.compile_with(surface, alpha, drive, None, effects, out);
    }

    /// Append this material's instances for one surface made of `substance`.
    pub fn compile_with(
        &self,
        surface: Surface,
        alpha: Micros,
        drive: Drive,
        substance: Option<Substance>,
        effects: bool,
        out: &mut Vec<Instance>,
    )
        requires
            self.sane(),
            surface.sane(),
            drive.sane(),
            substance_is_sane(substance),
        ensures
            final(out)@ == old(out)@ + material_draws(
                self.layers@,
                surface,
                alpha,
                drive,
                substance,
                effects,
            ),
    {
        self.compile_pass_with(Pass::Bleed, surface, alpha, drive, substance, effects, out);
        self.compile_pass_with(Pass::Body, surface, alpha, drive, substance, effects, out);
    }

    /// Append one pass of this material's instances, for a surface that paints many copies and
    /// wants every halo under every body.
    pub fn compile_pass(
        &self,
        pass: Pass,
        surface: Surface,
        alpha: Micros,
        drive: Drive,
        effects: bool,
        out: &mut Vec<Instance>,
    )
        requires
            self.sane(),
            surface.sane(),
            drive.sane(),
        ensures
            final(out)@ == old(out)@ + pass_draws(
                self.layers@,
                pass,
                surface,
                alpha,
                drive,
                None,
                effects,
            ),
    {
        self.compile_pass_with(pass, surface, alpha, drive, None, effects, out);
    }

    /// Append one pass of this material's instances, for a surface made of `substance`.
    pub fn compile_pass_with(
        &self,
        pass: Pass,
        surface: Surface,
        alpha: Micros,
        drive: Drive,
        substance: Option<Substance>,
        effects: bool,
        out: &mut Vec<Instance>,
    )
        requires
            self.sane(),
            surface.sane(),
            drive.sane(),
            substance_is_sane(substance),
        ensures
            final(out)@ == old(out)@ + pass_draws(
                self.layers@,
                pass,
                surface,
                alpha,
                drive,
                substance,
                effects,
            ),
    {
        let alpha: Micros = hold_between(alpha, 0, MICRO);
        if alpha <= 0 {
            assert(out@ =~= old(out)@ + Seq::empty());
            return;
        }
        let mut i: usize = 0;
        assert(out@ =~= old(out)@ + Seq::empty());
        while i < self.layers.len()
            invariant
                self.sane(),
                surface.sane(),
                drive.sane(),
                substance_is_sane(substance),
                0 <= alpha <= MICRO,
                i <= self.layers@.len(),
                out@ == old(out)@ + pass_over(
                    self.layers@,
                    i as int,
                    pass,
                    surface,
                    alpha as int,
                    drive,
                    substance,
                    effects,
                ),
            decreases self.layers@.len() - i,
        {
            let layer: Layer = self.layers[i];
            assert(layer.sane());
            if layer.pass() == pass {
                let made: Layer = layer.substanced(substance);
                assert(made.sane());
                let loud: Layer = made.driven(drive);
                match loud.instance(surface, alpha, effects) {
                    None => {},
                    Some(instance) => {
                        out.push(instance);
                        assert(out@ =~= old(out)@ + pass_over(
                            self.layers@,
                            i as int,
                            pass,
                            surface,
                            alpha as int,
                            drive,
                            substance,
                            effects,
                        ).push(instance));
                    },
                }
            }
            i = i + 1;
        }
    }

    /// How far past a surface this material reaches, in physical pixels: what to widen a cull
    /// by, so that a halo scrolls in rather than popping in.
    pub fn bleed(&self, scale: Micros, drive: Drive) -> (result: Micros)
        requires
            self.sane(),
            modest(scale as int),
            drive.sane(),
        ensures
            result == furthest_overhang(self.layers@, scale as int, drive),
            0 <= result <= 10_000_000_000_000_000_000_000_000,
    {
        let mut most: Micros = 0;
        let mut i: usize = 0;
        assert(self.layers@.take(0) =~= Seq::empty());
        while i < self.layers.len()
            invariant
                self.sane(),
                modest(scale as int),
                drive.sane(),
                i <= self.layers@.len(),
                most == furthest_overhang(self.layers@.take(i as int), scale as int, drive),
                0 <= most <= 10_000_000_000_000_000_000_000_000,
            decreases self.layers@.len() - i,
        {
            let layer: Layer = self.layers[i];
            assert(layer.sane());
            proof {
                let next = self.layers@.take(i as int + 1);
                assert(next.drop_last() =~= self.layers@.take(i as int));
                assert(next.last() == layer);
            }
            if layer.kind == PrimKind::Glow {
                let reach: Micros = layer.driven(drive).reach - layer.inset;
                most = larger(most, wide_product(reach, scale));
            }
            i = i + 1;
        }
        assert(self.layers@.take(i as int) =~= self.layers@);
        most
    }

    /// The brightest instant of the lamp's shimmer, as a multiple of its authored emission.
    pub fn flicker_peak(&self) -> (result: Micros)
        requires
            self.sane(),
        ensures
            result == 1_000_000 + strongest_flicker(self.layers@),
            MICRO <= result <= 1_000_001_000_000,
    {
        let mut most: Micros = 0;
        let mut i: usize = 0;
        assert(self.layers@.take(0) =~= Seq::empty());
        while i < self.layers.len()
            invariant
                self.sane(),
                i <= self.layers@.len(),
                most == strongest_flicker(self.layers@.take(i as int)),
                0 <= most <= 1_000_000_000_000,
            decreases self.layers@.len() - i,
        {
            proof {
                let next = self.layers@.take(i as int + 1);
                assert(next.drop_last() =~= self.layers@.take(i as int));
                assert(next.last() == self.layers@[i as int]);
                assert(self.layers@[i as int].sane());
            }
            if self.layers[i].kind == PrimKind::Pbr {
                most = larger(most, self.layers[i].flicker);
            }
            i = i + 1;
        }
        assert(self.layers@.take(i as int) =~= self.layers@);
        MICRO + most
    }

    /// The most this material adds to its own ground when it is lit: so many times the colour
    /// of its lamp, and nothing where it has none.
    pub fn emission_peak(&self) -> (result: LampPeak)
        requires
            self.sane(),
        ensures
            result == match first_lamp(self.layers@) {
                None => LampPeak { color: Srgba::clear(), strength: 0 },
                Some(lamp) => LampPeak {
                    color: lamp.near,
                    strength: times(
                        times(lamp.emission as int, Self::LAMP_PEAK as int),
                        1_000_000 + strongest_flicker(self.layers@),
                    ) as Micros,
                },
            },
    {
        let mut i: usize = 0;
        assert(self.layers@.skip(0) =~= self.layers@);
        while i < self.layers.len()
            invariant
                self.sane(),
                i <= self.layers@.len(),
                first_lamp(self.layers@) == first_lamp(self.layers@.skip(i as int)),
            decreases self.layers@.len() - i,
        {
            assert(self.layers@.skip(i as int).drop_first() =~= self.layers@.skip(i as int + 1));
            let layer: Layer = self.layers[i];
            assert(layer.sane());
            if layer.kind == PrimKind::Pbr && layer.emission > 0 {
                proof {
                    times_is_bounded(layer.emission as int, Self::LAMP_PEAK as int, 2);
                }
                let burning: Micros = product(layer.emission, Self::LAMP_PEAK);
                return LampPeak {
                    color: layer.near,
                    strength: product(burning, self.flicker_peak()),
                };
            }
            i = i + 1;
        }
        LampPeak { color: Srgba::transparent(), strength: 0 }
    }
}

/// `a` times `b`, where `a` is the difference of two lengths.
fn wide_product(a: Micros, b: Micros) -> (result: Micros)
    requires
        -2 * 1_152_921_504_606_846_976 <= a <= 2 * 1_152_921_504_606_846_976,
        modest(b as int),
    ensures
        result == times(a as int, b as int),
        result <= 10_000_000_000_000_000_000_000_000,
{
    proof {
        lemma_product_of_a_reach(a as int, b as int);
    }
    crate::units::floor_div(a * b, MICRO)
}

proof fn lemma_product_of_a_reach(a: int, b: int)
    requires
        -2 * 1_152_921_504_606_846_976 <= a <= 2 * 1_152_921_504_606_846_976,
        modest(b),
    ensures
        -10_000_000_000_000_000_000_000_000_000_000 <= a * b
            <= 10_000_000_000_000_000_000_000_000_000_000,
{
    assert(-10_000_000_000_000_000_000_000_000_000_000 <= a * b
        <= 10_000_000_000_000_000_000_000_000_000_000) by (nonlinear_arith)
        requires
            -2 * 1_152_921_504_606_846_976 <= a <= 2 * 1_152_921_504_606_846_976,
            -1_000_000_000_000 <= b <= 1_000_000_000_000,
    ;
}

/// The first pass draws halos and nothing else, and the second draws none: a material's halos
/// all lie under all of its bodies.
pub proof fn halos_lie_under_bodies(
    layers: Seq<Layer>,
    surface: Surface,
    alpha: Micros,
    drive: Drive,
    substance: Option<Substance>,
    effects: bool,
)
    ensures
        forall|i: int|
            0 <= i < pass_draws(
                layers,
                Pass::Bleed,
                surface,
                alpha,
                drive,
                substance,
                effects,
            ).len() ==> (#[trigger] pass_draws(
                layers,
                Pass::Bleed,
                surface,
                alpha,
                drive,
                substance,
                effects,
            )[i]) is Glow,
        forall|i: int|
            0 <= i < pass_draws(
                layers,
                Pass::Body,
                surface,
                alpha,
                drive,
                substance,
                effects,
            ).len() ==> !((#[trigger] pass_draws(
                layers,
                Pass::Body,
                surface,
                alpha,
                drive,
                substance,
                effects,
            )[i]) is Glow),
{
    let a = clamped(alpha as int, 0, 1_000_000);
    let n = layers.len() as int;
    lemma_passes_keep_apart(layers, n, Pass::Bleed, surface, a, drive, substance, effects);
    lemma_passes_keep_apart(layers, n, Pass::Body, surface, a, drive, substance, effects);
}

proof fn lemma_passes_keep_apart(
    layers: Seq<Layer>,
    count: int,
    pass: Pass,
    surface: Surface,
    alpha: int,
    drive: Drive,
    substance: Option<Substance>,
    effects: bool,
)
    requires
        count <= layers.len(),
    ensures
        forall|i: int|
            0 <= i < pass_over(
                layers,
                count,
                pass,
                surface,
                alpha,
                drive,
                substance,
                effects,
            ).len() ==> ((#[trigger] pass_over(
                layers,
                count,
                pass,
                surface,
                alpha,
                drive,
                substance,
                effects,
            )[i]) is Glow <==> pass == Pass::Bleed),
    decreases count,
{
    if count > 0 {
        lemma_passes_keep_apart(
            layers,
            count - 1,
            pass,
            surface,
            alpha,
            drive,
            substance,
            effects,
        );
    }
}

/// With effects off a material is flat rectangles and strokes: no ramp, no halo and no light.
pub proof fn flat_mode_draws_flat(
    layers: Seq<Layer>,
    pass: Pass,
    surface: Surface,
    alpha: Micros,
    drive: Drive,
    substance: Option<Substance>,
)
    ensures
        forall|i: int|
            0 <= i < pass_draws(
                layers,
                pass,
                surface,
                alpha,
                drive,
                substance,
                false,
            ).len() ==> ((#[trigger] pass_draws(
                layers,
                pass,
                surface,
                alpha,
                drive,
                substance,
                false,
            )[i]) is Rect || pass_draws(
                layers,
                pass,
                surface,
                alpha,
                drive,
                substance,
                false,
            )[i] is Stroke),
{
    lemma_flat_pass(
        layers,
        layers.len() as int,
        pass,
        surface,
        clamped(alpha as int, 0, 1_000_000),
        drive,
        substance,
    );
}

proof fn lemma_flat_pass(
    layers: Seq<Layer>,
    count: int,
    pass: Pass,
    surface: Surface,
    alpha: int,
    drive: Drive,
    substance: Option<Substance>,
)
    requires
        count <= layers.len(),
    ensures
        forall|i: int|
            0 <= i < pass_over(
                layers,
                count,
                pass,
                surface,
                alpha,
                drive,
                substance,
                false,
            ).len() ==> ((#[trigger] pass_over(
                layers,
                count,
                pass,
                surface,
                alpha,
                drive,
                substance,
                false,
            )[i]) is Rect || pass_over(
                layers,
                count,
                pass,
                surface,
                alpha,
                drive,
                substance,
                false,
            )[i] is Stroke),
    decreases count,
{
    if count > 0 {
        lemma_flat_pass(layers, count - 1, pass, surface, alpha, drive, substance);
    }
}

/// A material none of whose layers answers to the drive draws the same at every drive.
pub proof fn an_undriven_material_never_moves(
    layers: Seq<Layer>,
    pass: Pass,
    surface: Surface,
    alpha: Micros,
    a: Drive,
    b: Drive,
    substance: Option<Substance>,
    effects: bool,
)
    requires
        forall|i: int|
            0 <= i < layers.len() ==> !(#[trigger] layers[i]).answers_drive()
                && !layers[i].answers_phase(),
    ensures
        pass_draws(layers, pass, surface, alpha, a, substance, effects) == pass_draws(
            layers,
            pass,
            surface,
            alpha,
            b,
            substance,
            effects,
        ),
{
    lemma_undriven_pass(
        layers,
        layers.len() as int,
        pass,
        surface,
        clamped(alpha as int, 0, 1_000_000),
        a,
        b,
        substance,
        effects,
    );
}

proof fn lemma_undriven_pass(
    layers: Seq<Layer>,
    count: int,
    pass: Pass,
    surface: Surface,
    alpha: int,
    a: Drive,
    b: Drive,
    substance: Option<Substance>,
    effects: bool,
)
    requires
        count <= layers.len(),
        forall|i: int|
            0 <= i < layers.len() ==> !(#[trigger] layers[i]).answers_drive()
                && !layers[i].answers_phase(),
    ensures
        pass_over(layers, count, pass, surface, alpha, a, substance, effects) == pass_over(
            layers,
            count,
            pass,
            surface,
            alpha,
            b,
            substance,
            effects,
        ),
    decreases count,
{
    if count > 0 {
        lemma_undriven_pass(layers, count - 1, pass, surface, alpha, a, b, substance, effects);
        assert(!layers[count - 1].answers_drive());
    }
}

/// However its shimmer moves, a lamp never burns brighter than the peak that is stated for it.
pub proof fn a_lamp_stays_under_its_peak(layers: Seq<Layer>, i: int, drive: Drive)
    requires
        0 <= i < layers.len(),
        layers[i].kind == PrimKind::Pbr,
        layers[i].sane(),
        drive.sane(),
    ensures
        layers[i].at_drive(drive).emission <= times(
            layers[i].emission as int,
            1_000_000 + strongest_flicker(layers),
        ),
{
    lemma_strongest(layers, i);
    let layer = layers[i];
    let e = layer.emission as int;
    let f = layer.flicker as int;
    let r = drive.ripple as int;
    let most = 1_000_000 + strongest_flicker(layers);
    let now = crate::material::shimmered(r, f);
    assert(now <= most) by {
        if f > 0 {
            assert(f * r <= f * 1_000_000) by (nonlinear_arith)
                requires
                    f > 0,
                    r <= 1_000_000,
            ;
        }
    }
    assert(e * now <= e * most) by (nonlinear_arith)
        requires
            e >= 0,
            now <= most,
    ;
    assert(e * 1_000_000 <= e * most) by (nonlinear_arith)
        requires
            e >= 0,
            1_000_000 <= most,
    ;
    crate::material::lemma_lamp_fits(layer, drive);
}

proof fn lemma_strongest(layers: Seq<Layer>, i: int)
    requires
        0 <= i < layers.len(),
        layers[i].kind == PrimKind::Pbr,
    ensures
        strongest_flicker(layers) >= layers[i].flicker,
        strongest_flicker(layers) >= 0,
    decreases layers.len(),
{
    if i < layers.len() - 1 {
        assert(layers.drop_last()[i] == layers[i]);
        lemma_strongest(layers.drop_last(), i);
    } else {
        lemma_strongest_is_not_negative(layers.drop_last());
    }
}

proof fn lemma_strongest_is_not_negative(layers: Seq<Layer>)
    ensures
        strongest_flicker(layers) >= 0,
    decreases layers.len(),
{
    if layers.len() > 0 {
        lemma_strongest_is_not_negative(layers.drop_last());
    }
}

/// A material draws at most one primitive for each of its layers, however it is driven.
pub proof fn a_material_draws_no_more_than_its_layers(
    layers: Seq<Layer>,
    surface: Surface,
    alpha: Micros,
    drive: Drive,
    substance: Option<Substance>,
    effects: bool,
)
    ensures
        material_draws(layers, surface, alpha, drive, substance, effects).len() <= layers.len(),
{
    lemma_passes_share_layers(
        layers,
        layers.len() as int,
        surface,
        clamped(alpha as int, 0, 1_000_000),
        drive,
        substance,
        effects,
    );
}

proof fn lemma_passes_share_layers(
    layers: Seq<Layer>,
    count: int,
    surface: Surface,
    alpha: int,
    drive: Drive,
    substance: Option<Substance>,
    effects: bool,
)
    requires
        0 <= count,
    ensures
        pass_over(layers, count, Pass::Bleed, surface, alpha, drive, substance, effects).len()
            + pass_over(layers, count, Pass::Body, surface, alpha, drive, substance, effects).len()
            <= count,
    decreases count,
{
    if count > 0 {
        lemma_passes_share_layers(layers, count - 1, surface, alpha, drive, substance, effects);
    }
}

/// With effects on every layer is drawn as the kind it is, where it lands, in its own colours: wholly
/// opaque they are exactly those it was authored with. With effects off a layer that has a flat form is
/// the one colour it collapses to, and one that has none is not drawn.
pub proof fn a_layer_is_drawn_as_what_it_is(layer: Layer, surface: Surface)
    requires
        layer.sane(),
        layer.lands(surface) is Some,
    ensures
        ({
            let shape = layer.lands(surface)->0;
            let rich = layer.drawn(surface, 1_000_000, true);
            let plain = layer.drawn(surface, 1_000_000, false);
            &&& rich matches Some(i) ==> i.place().x == shape.x && i.place().y == shape.y
                && i.place().w == shape.w && i.place().h == shape.h
            &&& layer.kind == PrimKind::Rect ==> rich == Some(
                Instance::Rect { shape, color: layer.near },
            ) && plain == rich
            &&& layer.kind == PrimKind::Gradient ==> rich == Some(
                Instance::Gradient { shape, angle: layer.angle, near: layer.near, far: layer.far },
            )
            &&& layer.kind == PrimKind::Sweep ==> rich == Some(
                Instance::Sweep { shape, angle: layer.angle, near: layer.near, far: layer.far },
            )
            &&& layer.kind == PrimKind::Field ==> (rich matches Some(
                Instance::Field { shape: place, amplitude, angle, ground },
            ) && place.radius == 0 && amplitude == layer.amplitude && angle == layer.angle && ground
                == layer.near)
            &&& layer.kind == PrimKind::Pbr ==> (rich matches Some(
                Instance::Pbr { roughness, metallic, env, emission, albedo, .. },
            ) && roughness == layer.roughness && metallic == layer.metallic && env == layer.env
                && emission == layer.emission && albedo == layer.near)
            &&& layer.kind == PrimKind::Glow ==> (rich matches Some(
                Instance::Glow { shape: place, near, far, .. },
            ) && place == shape && near == layer.near && far == layer.far) && plain is None
            &&& layer.kind == PrimKind::Stroke ==> (rich matches Some(
                Instance::Stroke { shape: place, color, .. },
            ) && place == shape && color == layer.near) && plain == rich
            &&& layer.kind == PrimKind::Rim ==> (rich matches Some(
                Instance::Rim { shape: place, color, .. },
            ) && place == shape && color == layer.near) && plain is None
            &&& layer.kind == PrimKind::Gradient || layer.kind == PrimKind::Sweep || layer.kind
                == PrimKind::Field || layer.kind == PrimKind::Pbr ==> plain == Some(
                Instance::Rect { shape, color: layer.flat },
            )
        }),
{
    crate::units::times_one(layer.near.a as int);
    crate::units::times_one(layer.far.a as int);
    crate::units::times_one(layer.flat.a as int);
}

/// What is drawn keeps its hue at every opacity. It is as opaque as its layer times that, to the
/// rounding, and at none it is gone.
pub proof fn opacity_scales_what_is_drawn(color: Srgba, low: int, high: int)
    requires
        color.valid(),
        0 <= low <= high <= 1_000_000,
    ensures
        color.times_alpha(high).r == color.r,
        color.times_alpha(high).g == color.g,
        color.times_alpha(high).b == color.b,
        0 <= color.times_alpha(low).a <= color.times_alpha(high).a <= color.a,
        color.times_alpha(0).a == 0,
        color.times_alpha(1_000_000) == color,
        0 <= color.a * high - color.times_alpha(high).a * 1_000_000 < 1_000_000,
{
    crate::units::times_one(color.a as int);
    let a = color.a as int;
    assert(0 <= a * low <= a * high <= a * 1_000_000) by (nonlinear_arith)
        requires
            0 <= a,
            0 <= low <= high <= 1_000_000,
    ;
}

/// Every layer of a pass that draws anything is drawn once, after what the layers below it draw and
/// before what those above it do, as it is at the drive and with the substance.
pub proof fn layers_are_drawn_in_their_order(
    layers: Seq<Layer>,
    k: int,
    pass: Pass,
    surface: Surface,
    alpha: Micros,
    drive: Drive,
    substance: Option<Substance>,
    effects: bool,
)
    requires
        0 <= k < layers.len(),
    ensures
        alpha <= 0 ==> pass_draws(layers, pass, surface, alpha, drive, substance, effects).len() == 0,
        alpha > 0 ==> {
            let a = if alpha > 1_000_000 {
                1_000_000
            } else {
                alpha as int
            };
            let all = pass_draws(layers, pass, surface, alpha, drive, substance, effects);
            let below = pass_over(layers, k, pass, surface, a, drive, substance, effects).len() as int;
            let upto = pass_over(layers, k + 1, pass, surface, a, drive, substance, effects).len() as int;
            let drawn = layers[k].made_of(substance).at_drive(drive).drawn(surface, a, effects);
            let mine = (layers[k].kind == PrimKind::Glow) == (pass == Pass::Bleed);
            &&& upto <= all.len()
            &&& !mine || drawn is None ==> upto == below
            &&& mine && drawn is Some ==> upto == below + 1 && all[below] == drawn->0
            &&& k == layers.len() - 1 ==> upto == all.len()
            &&& k == 0 ==> below == 0
        },
{
    if alpha > 0 {
        let a = clamped(alpha as int, 0, 1_000_000);
        lemma_a_pass_grows(
            layers,
            k + 1,
            layers.len() as int,
            pass,
            surface,
            a,
            drive,
            substance,
            effects,
        );
        let now = pass_over(layers, k + 1, pass, surface, a, drive, substance, effects);
        let below = pass_over(layers, k, pass, surface, a, drive, substance, effects);
        let all = pass_draws(layers, pass, surface, alpha, drive, substance, effects);
        if now.len() > below.len() {
            assert(all[below.len() as int] == now[below.len() as int]);
        }
    }
}

proof fn lemma_a_pass_grows(
    layers: Seq<Layer>,
    some: int,
    more: int,
    pass: Pass,
    surface: Surface,
    alpha: int,
    drive: Drive,
    substance: Option<Substance>,
    effects: bool,
)
    requires
        some <= more <= layers.len(),
    ensures
        ({
            let a = pass_over(layers, some, pass, surface, alpha, drive, substance, effects);
            let b = pass_over(layers, more, pass, surface, alpha, drive, substance, effects);
            a.len() <= b.len() && forall|i: int| 0 <= i < a.len() ==> b[i] == #[trigger] a[i]
        }),
    decreases more - some,
{
    if some < more {
        lemma_a_pass_grows(
            layers,
            some,
            more - 1,
            pass,
            surface,
            alpha,
            drive,
            substance,
            effects,
        );
    }
}

/// How far a material reaches past its surface is as far as its furthest halo, and every halo is within
/// it.
pub proof fn nothing_reaches_past_the_overhang(layers: Seq<Layer>, scale: int, drive: Drive, i: int)
    requires
        0 <= i < layers.len(),
    ensures
        furthest_overhang(layers, scale, drive) >= 0,
        layers[i].kind == PrimKind::Glow ==> times(
            layers[i].at_drive(drive).reach - layers[i].inset,
            scale,
        ) <= furthest_overhang(layers, scale, drive),
        furthest_overhang(layers, scale, drive) > 0 ==> exists|j: int|
            0 <= j < layers.len() && (#[trigger] layers[j]).kind == PrimKind::Glow
                && furthest_overhang(layers, scale, drive) == times(
                layers[j].at_drive(drive).reach - layers[j].inset,
                scale,
            ),
    decreases layers.len(),
{
    let rest = layers.drop_last();
    if rest.len() > 0 {
        let k = if i < rest.len() {
            i
        } else {
            0
        };
        nothing_reaches_past_the_overhang(rest, scale, drive, k);
        if furthest_overhang(layers, scale, drive) > 0 && overhang(layers.last(), scale, drive)
            < furthest_overhang(layers, scale, drive) {
            let j = choose|j: int|
                0 <= j < rest.len() && (#[trigger] rest[j]).kind == PrimKind::Glow
                    && furthest_overhang(rest, scale, drive) == times(
                    rest[j].at_drive(drive).reach - rest[j].inset,
                    scale,
                );
            assert(layers[j] == rest[j]);
        } else if furthest_overhang(layers, scale, drive) > 0 {
            assert(layers[layers.len() - 1].kind == PrimKind::Glow);
        }
    } else {
        assert(furthest_overhang(rest, scale, drive) == 0);
        if furthest_overhang(layers, scale, drive) > 0 {
            assert(layers[layers.len() - 1].kind == PrimKind::Glow);
        }
    }
}

/// Whether a primitive is none of halo, rim, lit substance and field.
pub open spec fn is_plain(kind: PrimKind) -> bool {
    &&& kind != PrimKind::Glow
    &&& kind != PrimKind::Rim
    &&& kind != PrimKind::Pbr
    &&& kind != PrimKind::Field
}

/// A material is drawn exactly as it is written unless a layer of it needs effects to be, and then it
/// promises what the first such layer does. Those are halos, rims, lit substances and fields.
pub proof fn a_material_promises_what_its_layers_do(layers: Seq<Layer>)
    ensures
        match promise_of(layers) {
            Fidelity::Exact => forall|i: int|
                0 <= i < layers.len() ==> is_plain((#[trigger] layers[i]).kind),
            Fidelity::Enhanced { floor } => exists|at: int|
                {
                    &&& 0 <= at < layers.len()
                    &&& (#[trigger] layers[at]).kind.promise() == promise_of(layers)
                    &&& floor == Floor::Nothing <==> layers[at].kind == PrimKind::Glow
                        || layers[at].kind == PrimKind::Rim
                    &&& floor == Floor::Fill <==> layers[at].kind == PrimKind::Pbr || layers[at].kind
                        == PrimKind::Field
                    &&& forall|i: int|
                        0 <= i < at ==> (#[trigger] layers[i]).kind.promise() == Fidelity::Exact
                },
        },
    decreases layers.len(),
{
    if layers.len() == 0 {
    } else if layers[0].kind.promise() != Fidelity::Exact {
        assert(layers[0].kind.promise() == promise_of(layers));
    } else {
        let rest = layers.drop_first();
        a_material_promises_what_its_layers_do(rest);
        if promise_of(rest) != Fidelity::Exact {
            let at = choose|at: int|
                {
                    &&& 0 <= at < rest.len()
                    &&& (#[trigger] rest[at]).kind.promise() == promise_of(rest)
                    &&& forall|i: int|
                        0 <= i < at ==> (#[trigger] rest[i]).kind.promise() == Fidelity::Exact
                };
            assert(layers[at + 1] == rest[at]);
            assert forall|i: int| 0 <= i < at + 1 implies (#[trigger] layers[i]).kind.promise()
                == Fidelity::Exact by {
                if i > 0 {
                    assert(layers[i] == rest[i - 1]);
                }
            }
        } else {
            assert forall|i: int| 0 <= i < layers.len() implies is_plain(
                (#[trigger] layers[i]).kind,
            ) by {
                if i > 0 {
                    assert(layers[i] == rest[i - 1]);
                }
            }
        }
    }
}

/// The lamp of a material is its first lit substance that gives light; one without a lamp has none that
/// does.
pub proof fn the_lamp_is_the_first_that_gives_light(layers: Seq<Layer>)
    ensures
        match first_lamp(layers) {
            Some(lamp) => exists|at: int|
                {
                    &&& 0 <= at < layers.len()
                    &&& #[trigger] layers[at] == lamp
                    &&& lamp.kind == PrimKind::Pbr
                    &&& lamp.emission > 0
                    &&& forall|i: int|
                        0 <= i < at ==> (#[trigger] layers[i]).kind != PrimKind::Pbr
                            || layers[i].emission <= 0
                },
            None => forall|i: int|
                0 <= i < layers.len() ==> (#[trigger] layers[i]).kind != PrimKind::Pbr
                    || layers[i].emission <= 0,
        },
    decreases layers.len(),
{
    if layers.len() == 0 {
    } else if layers[0].kind == PrimKind::Pbr && layers[0].emission > 0 {
        assert(layers[0] == first_lamp(layers)->0);
    } else {
        let rest = layers.drop_first();
        the_lamp_is_the_first_that_gives_light(rest);
        if let Some(lamp) = first_lamp(rest) {
            let at = choose|at: int|
                {
                    &&& 0 <= at < rest.len()
                    &&& #[trigger] rest[at] == lamp
                    &&& forall|i: int|
                        0 <= i < at ==> (#[trigger] rest[i]).kind != PrimKind::Pbr
                            || rest[i].emission <= 0
                };
            assert(layers[at + 1] == lamp);
            assert forall|i: int| 0 <= i < at + 1 implies (#[trigger] layers[i]).kind
                != PrimKind::Pbr || layers[i].emission <= 0 by {
                if i > 0 {
                    assert(layers[i] == rest[i - 1]);
                }
            }
        } else {
            assert forall|i: int| 0 <= i < layers.len() implies (#[trigger] layers[i]).kind
                != PrimKind::Pbr || layers[i].emission <= 0 by {
                if i > 0 {
                    assert(layers[i] == rest[i - 1]);
                }
            }
        }
    }
}

/// The strongest flicker is that of a lit substance, and none of them flickers more; where nothing is
/// lit there is none.
pub proof fn the_strongest_flicker_is_one_of_them(layers: Seq<Layer>)
    ensures
        forall|i: int|
            0 <= i < layers.len() && (#[trigger] layers[i]).kind == PrimKind::Pbr
                ==> layers[i].flicker <= strongest_flicker(layers),
        strongest_flicker(layers) >= 0,
        strongest_flicker(layers) > 0 ==> exists|i: int|
            0 <= i < layers.len() && (#[trigger] layers[i]).kind == PrimKind::Pbr
                && layers[i].flicker == strongest_flicker(layers),
    decreases layers.len(),
{
    if layers.len() > 0 {
        let front = layers.drop_last();
        let last = layers.len() - 1;
        the_strongest_flicker_is_one_of_them(front);
        assert forall|i: int|
            0 <= i < layers.len() && (#[trigger] layers[i]).kind
                == PrimKind::Pbr implies layers[i].flicker <= strongest_flicker(layers) by {
            if i < last {
                assert(layers[i] == front[i]);
            }
        }
        if strongest_flicker(layers) > 0 {
            if layers[last].kind == PrimKind::Pbr && layers[last].flicker == strongest_flicker(
                layers,
            ) {
            } else {
                let i = choose|i: int|
                    0 <= i < front.len() && (#[trigger] front[i]).kind == PrimKind::Pbr
                        && front[i].flicker == strongest_flicker(front);
                assert(layers[i] == front[i]);
            }
        }
    }
}

/// What is drawn on a scaled surface is that much wider, deeper and further reaching.
pub proof fn what_is_drawn_scales_with_the_surface(layer: Layer, surface: Surface, alpha: int)
    requires
        layer.sane(),
        0 <= surface.scale <= 1_000_000_000_000,
    ensures
        layer.drawn(surface, alpha, true) matches Some(instance) ==> match instance {
            Instance::Stroke { width, .. } => 0 <= layer.width * surface.scale - width * 1_000_000
                < 1_000_000,
            Instance::Rim { width, .. } => 0 <= layer.width * surface.scale - width * 1_000_000
                < 1_000_000,
            Instance::Glow { reach, .. } => 0 <= layer.reach * surface.scale - reach * 1_000_000
                < 1_000_000,
            Instance::Pbr { bevel, .. } => 0 <= layer.bevel * surface.scale - bevel * 1_000_000
                < 1_000_000,
            _ => true,
        },
{
    times_is_bounded(layer.width as int, surface.scale as int, 1_000_000);
    times_is_bounded(layer.reach as int, surface.scale as int, 1_000_000);
    times_is_bounded(layer.bevel as int, surface.scale as int, 1_000_000);
}

/// A layer that is drawn at less than its full opacity is drawn as one whose colours are that much less
/// opaque.
pub proof fn less_opaque_is_as_if_coloured_so(
    layer: Layer,
    surface: Surface,
    alpha: int,
    effects: bool,
)
    requires
        layer.sane(),
        0 <= alpha <= 1_000_000,
    ensures
        layer.drawn(surface, alpha, effects) == (Layer {
            near: layer.near.times_alpha(alpha),
            far: layer.far.times_alpha(alpha),
            flat: layer.flat.times_alpha(alpha),
            ..layer
        }).drawn(surface, 1_000_000, effects),
{
    times_is_bounded(layer.near.a as int, alpha, 1);
    times_is_bounded(layer.far.a as int, alpha, 1);
    times_is_bounded(layer.flat.a as int, alpha, 1);
    crate::units::times_one(times(layer.near.a as int, alpha));
    crate::units::times_one(times(layer.far.a as int, alpha));
    crate::units::times_one(times(layer.flat.a as int, alpha));
}

} // verus!

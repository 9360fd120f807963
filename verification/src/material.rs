//! Named looks: what a selected row, a hovered chip or the window's ground is made of.

use crate::units::{
    clamped, fits, hold_between, larger, max_of, product, times, times_is_bounded, times_one, Micros,
    Reading, MICRO,
};
use vstd::prelude::*;

pub mod compile;
pub mod composite;
pub mod name;
pub mod resolve;

verus! {

/// What a material is told about the moment it is painted in.
#[derive(Clone, Copy, PartialEq, Eq, Debug, Structural)]
pub struct Drive {
    /// How hard the material is driven, from zero to one.
    pub intensity: Micros,
    /// Where the material is in its cycle, in turns from zero up to one.
    pub phase: Micros,
    /// Where the lamp's shimmer is at that phase, from minus one to one.
    pub ripple: Micros,
}

/// Where the lamp's shimmer is at the start of the cycle. The shimmer is the sum of three ripples
/// that go round once, 2.7 times and 6.3 times in a cycle, and two of them do not start at zero.
pub const RESTING_RIPPLE: Micros = 303_737;

/// The fraction of a turn that `phase` turns end on.
pub open spec fn turn_of(phase: Reading) -> int {
    match phase {
        Reading::Finite(x) => x as int % 1_000_000,
        _ => 0,
    }
}

impl Drive {
    /// Not driven, at the start of the cycle.
    pub open spec fn resting() -> Drive {
        Drive { intensity: 0, phase: 0, ripple: RESTING_RIPPLE }
    }

    /// Not driven, at the start of the cycle.
    pub fn rest() -> (result: Drive)
        ensures
            result == Drive::resting(),
    {
        Drive { intensity: 0, phase: 0, ripple: RESTING_RIPPLE }
    }

    /// A drive within its ranges, whatever is asked for. `ripple` is where the lamp's shimmer is
    /// at that phase.
    pub fn new(intensity: Micros, phase: Reading, ripple: Micros) -> (result: Drive)
        ensures
            result.intensity == clamped(intensity as int, 0, 1_000_000),
            result.phase == turn_of(phase),
            result.ripple == clamped(ripple as int, -1_000_000, 1_000_000),
            0 <= result.phase < MICRO,
    {
        let phase: Micros = match phase {
            Reading::Finite(x) => wrapped(x),
            _ => 0,
        };
        Drive {
            intensity: hold_between(intensity, 0, MICRO),
            phase,
            ripple: hold_between(ripple, -MICRO, MICRO),
        }
    }
}

/// `x` modulo one, never negative.
fn wrapped(x: Micros) -> (result: Micros)
    ensures
        result == x as int % 1_000_000,
        0 <= result < MICRO,
{
    if x >= 0 {
        x % MICRO
    } else {
        // One more than `x` cannot overflow, and is still at most zero.
        let back: Micros = (-(x + 1)) % MICRO;
        proof {
            let n = -(x + 1) as int;
            assert(x as int % 1_000_000 == 999_999 - n % 1_000_000);
        }
        MICRO - 1 - back
    }
}

/// A colour: red, green, blue and opacity, each from zero to one.
#[derive(Clone, Copy, PartialEq, Eq, Debug, Structural)]
pub struct Srgba {
    /// Red.
    pub r: Micros,
    /// Green.
    pub g: Micros,
    /// Blue.
    pub b: Micros,
    /// Opacity.
    pub a: Micros,
}

impl Srgba {
    /// Whether every channel is between zero and one.
    pub open spec fn valid(self) -> bool {
        &&& 0 <= self.r <= MICRO
        &&& 0 <= self.g <= MICRO
        &&& 0 <= self.b <= MICRO
        &&& 0 <= self.a <= MICRO
    }

    /// Nothing at all.
    pub open spec fn clear() -> Srgba {
        Srgba { r: 0, g: 0, b: 0, a: 0 }
    }

    /// The same colour, `alpha` times as opaque.
    pub open spec fn times_alpha(self, alpha: int) -> Srgba {
        Srgba { a: times(self.a as int, alpha) as Micros, ..self }
    }

    /// Nothing at all.
    pub fn transparent() -> (result: Srgba)
        ensures
            result == Srgba::clear(),
    {
        Srgba { r: 0, g: 0, b: 0, a: 0 }
    }
}

/// Scale a colour's opacity. Multiplicative: a translucent layer stays in proportion, so that
/// nothing is ever painted more opaque than it was authored.
pub fn scaled(color: Srgba, alpha: Micros) -> (result: Srgba)
    requires
        color.valid(),
        0 <= alpha <= MICRO,
    ensures
        result == color.times_alpha(alpha as int),
        result.valid(),
        result.a <= color.a,
{
    proof {
        times_is_bounded(color.a as int, alpha as int, 1);
    }
    Srgba { a: product(color.a, alpha), ..color }
}

/// The shape a material is painted onto, in physical pixels.
#[derive(Clone, Copy, PartialEq, Eq, Debug, Structural)]
pub struct Surface {
    /// Left edge.
    pub x: Micros,
    /// Top edge.
    pub y: Micros,
    /// Width.
    pub w: Micros,
    /// Height.
    pub h: Micros,
    /// Corner radius.
    pub radius: Micros,
    /// Device pixel ratio: every length in a material is authored in logical pixels.
    pub scale: Micros,
    /// How far right a shadow falls for each pixel that its caster is displaced.
    pub shadow_x: Micros,
    /// How far down a shadow falls for each pixel that its caster is displaced.
    pub shadow_y: Micros,
}

/// Whether a position is one that lengths can still be added to.
pub open spec fn roomy(x: int) -> bool {
    -1_000_000_000_000_000_000_000_000_000_000 <= x <= 1_000_000_000_000_000_000_000_000_000_000
}

/// Whether a quantity is small enough to be scaled twice: at most a million.
pub open spec fn modest(x: int) -> bool {
    -1_000_000_000_000 <= x <= 1_000_000_000_000
}

impl Surface {
    /// Positions are small enough to add to, and scales are small enough to multiply by.
    pub open spec fn sane(self) -> bool {
        &&& roomy(self.x as int)
        &&& roomy(self.y as int)
        &&& roomy(self.w as int)
        &&& roomy(self.h as int)
        &&& roomy(self.radius as int)
        &&& modest(self.scale as int)
        &&& modest(self.shadow_x as int)
        &&& modest(self.shadow_y as int)
    }

    /// A surface under a light from straight above, which displaces no shadow.
    pub fn new(x: Micros, y: Micros, w: Micros, h: Micros, radius: Micros, scale: Micros) -> (result:
        Self)
        ensures
            result == (Surface { x, y, w, h, radius, scale, shadow_x: 0, shadow_y: 0 }),
    {
        Surface { x, y, w, h, radius, scale, shadow_x: 0, shadow_y: 0 }
    }

    /// The same surface under a key light whose shadows fall along `(x, y)`.
    pub fn with_shadow(self, x: Micros, y: Micros) -> (result: Self)
        ensures
            result == (Surface { shadow_x: x, shadow_y: y, ..self }),
    {
        Surface { shadow_x: x, shadow_y: y, ..self }
    }
}

/// Which edge band of the surface a layer occupies.
#[derive(Clone, Copy, PartialEq, Eq, Debug, Structural)]
pub enum Edge {
    /// Along the top.
    Top,
    /// Along the bottom.
    Bottom,
    /// Along the left side.
    Left,
    /// Along the right side.
    Right,
}

/// Which half of a material is painted: a halo reaches past its own shape, so a surface that
/// draws many copies puts every halo down before every body.
#[derive(Clone, Copy, PartialEq, Eq, Debug, Structural)]
pub enum Pass {
    /// Layers that reach outside the shape.
    Bleed,
    /// Layers contained by the shape.
    Body,
}

/// What a tier that cannot draw an effect draws instead.
#[derive(Clone, Copy, PartialEq, Eq, Debug, Structural)]
pub enum Floor {
    /// Nothing.
    Nothing,
    /// The plain fill.
    Fill,
}

/// Whether every tier draws a primitive alike.
#[derive(Clone, Copy, PartialEq, Eq, Debug, Structural)]
pub enum Fidelity {
    /// Every tier draws the same.
    Exact,
    /// Some tiers draw only a floor.
    Enhanced {
        /// What they draw.
        floor: Floor,
    },
}

/// What a layer is drawn with.
#[derive(Clone, Copy, PartialEq, Eq, Debug, Structural)]
pub enum PrimKind {
    /// A flat rounded rectangle.
    Rect,
    /// A mask from the glyph atlas. Content, never a layer.
    Glyph,
    /// An inside-aligned stroke.
    Stroke,
    /// A ramp across the shape.
    Gradient,
    /// The shape with a halo around it.
    Glow,
    /// A soft light just inside the edge.
    Rim,
    /// A bevelled, lit surface.
    Pbr,
    /// A ramp around the shape.
    Sweep,
    /// The ambient colour field.
    Field,
}

impl PrimKind {
    /// What the tiers owe this primitive.
    pub open spec fn promise(self) -> Fidelity {
        match self {
            PrimKind::Glow => Fidelity::Enhanced { floor: Floor::Nothing },
            PrimKind::Rim => Fidelity::Enhanced { floor: Floor::Nothing },
            PrimKind::Pbr => Fidelity::Enhanced { floor: Floor::Fill },
            PrimKind::Field => Fidelity::Enhanced { floor: Floor::Fill },
            _ => Fidelity::Exact,
        }
    }

    /// What the tiers owe this primitive.
    pub fn fidelity(self) -> (result: Fidelity)
        ensures
            result == self.promise(),
    {
        match self {
            PrimKind::Glow => Fidelity::Enhanced { floor: Floor::Nothing },
            PrimKind::Rim => Fidelity::Enhanced { floor: Floor::Nothing },
            PrimKind::Pbr => Fidelity::Enhanced { floor: Floor::Fill },
            PrimKind::Field => Fidelity::Enhanced { floor: Floor::Fill },
            _ => Fidelity::Exact,
        }
    }
}

/// What the material's phase does to one layer; all zero does nothing.
#[derive(Clone, Copy, PartialEq, Eq, Debug, Structural)]
pub struct PhaseDef {
    /// Whole turns that the layer's axis rotates over one cycle.
    pub rotate: Micros,
    /// How hard the layer's emission shimmers over one cycle.
    pub flicker: Micros,
}

impl Default for PhaseDef {
    fn default() -> (result: Self)
        ensures
            result == (PhaseDef { rotate: 0, flicker: 0 }),
    {
        PhaseDef { rotate: 0, flicker: 0 }
    }
}

/// How much louder a layer gets at full drive; all one does nothing.
#[derive(Clone, Copy, PartialEq, Eq, Debug, Structural)]
pub struct SwellDef {
    /// Multiplies the layer's opacity, up to fully opaque.
    pub alpha: Micros,
    /// Multiplies a halo's reach.
    pub reach: Micros,
    /// Multiplies a stroke's width, or a rim's reach.
    pub width: Micros,
}

impl Default for SwellDef {
    fn default() -> (result: Self)
        ensures
            result == (SwellDef { alpha: MICRO, reach: MICRO, width: MICRO }),
    {
        SwellDef { alpha: MICRO, reach: MICRO, width: MICRO }
    }
}

/// Geometry that a layer states relative to the surface it is painted onto.
#[derive(Clone, Debug)]
pub struct GeometryDef {
    /// Shrink the shape on all sides by this step of the space scale.
    pub inset: Option<String>,
    /// Occupy one edge band instead of the whole shape.
    pub edge: Option<Edge>,
    /// The band's thickness in logical pixels.
    pub thickness: Option<Micros>,
    /// Override the surface's corner radius with a radius class.
    pub radius: Option<String>,
    /// Displace the layer by this many logical pixels along the direction a shadow falls.
    pub offset: Micros,
}

impl Default for GeometryDef {
    fn default() -> (result: Self)
        ensures
            result == (GeometryDef {
                inset: None,
                edge: None,
                thickness: None,
                radius: None,
                offset: 0,
            }),
    {
        GeometryDef { inset: None, edge: None, thickness: None, radius: None, offset: 0 }
    }
}

/// One centre of an ambient field, as authored. Positions are fractions of the viewport.
#[derive(Debug)]
pub struct FieldCentreDef {
    /// This centre's light.
    pub color: String,
    /// Its weight.
    pub alpha: Micros,
    /// Where it sits at phase zero.
    pub at: (Micros, Micros),
    /// How far it travels over one cycle.
    pub drift: (Micros, Micros),
    /// How far its light reaches.
    pub reach: Micros,
    /// Where it starts in the cycle, in turns.
    pub phase: Micros,
}

/// One layer as authored: an effect, the names of its colours, and its numbers.
#[derive(Debug)]
pub enum LayerDef {
    /// A flat fill.
    Fill {
        /// Colour token.
        color: String,
        /// Opacity.
        alpha: Option<Micros>,
        /// Response to the drive.
        swell: SwellDef,
        /// Geometry.
        geometry: GeometryDef,
    },
    /// A two-stop ramp across the shape.
    Gradient {
        /// Near stop.
        color: String,
        /// Far stop.
        to: String,
        /// Degrees.
        angle: Micros,
        /// Opacity.
        alpha: Option<Micros>,
        /// What this becomes with effects off; the near stop where none is named.
        flat: Option<String>,
        /// Response to the drive.
        swell: SwellDef,
        /// Response to the phase.
        phase: PhaseDef,
        /// Geometry.
        geometry: GeometryDef,
    },
    /// A two-stop ramp around the shape.
    Sweep {
        /// Near stop.
        color: String,
        /// Far stop.
        to: String,
        /// Degrees.
        angle: Micros,
        /// Opacity.
        alpha: Option<Micros>,
        /// What this becomes with effects off; the near stop where none is named.
        flat: Option<String>,
        /// Response to the drive.
        swell: SwellDef,
        /// Response to the phase.
        phase: PhaseDef,
        /// Geometry.
        geometry: GeometryDef,
    },
    /// The ambient colour field.
    Field {
        /// The ground.
        color: String,
        /// Opacity.
        alpha: Option<Micros>,
        /// How much of the centres' colour reaches the ground.
        amplitude: Micros,
        /// The centres.
        centres: Vec<FieldCentreDef>,
        /// Response to the drive.
        swell: SwellDef,
        /// Response to the phase.
        phase: PhaseDef,
        /// Geometry.
        geometry: GeometryDef,
    },
    /// The shape with a halo.
    Glow {
        /// Colour token.
        color: String,
        /// The tint at the falloff limit; the same colour where none is named.
        to: Option<String>,
        /// Opacity.
        alpha: Option<Micros>,
        /// How far the halo reaches: a step of the space scale.
        reach: String,
        /// Response to the drive.
        swell: SwellDef,
        /// Geometry.
        geometry: GeometryDef,
    },
    /// A soft light just inside the edge.
    Rim {
        /// Colour token.
        color: String,
        /// Opacity.
        alpha: Option<Micros>,
        /// How far the light reaches inward, in logical pixels.
        width: Micros,
        /// Response to the drive.
        swell: SwellDef,
        /// Geometry.
        geometry: GeometryDef,
    },
    /// A bevelled, lit surface.
    Pbr {
        /// Base colour.
        color: String,
        /// Opacity.
        alpha: Option<Micros>,
        /// How wide the lit edge is, in logical pixels.
        bevel: Micros,
        /// From mirror to chalk.
        roughness: Micros,
        /// How metallic it is.
        metallic: Micros,
        /// How much of the surroundings it picks up.
        env: Micros,
        /// How brightly its edge emits.
        emission: Micros,
        /// The colour it emits into the scene.
        emits: Option<String>,
        /// How brightly it emits into the scene.
        emits_strength: Micros,
        /// Response to the drive.
        swell: SwellDef,
        /// Response to the phase.
        phase: PhaseDef,
        /// Geometry.
        geometry: GeometryDef,
    },
    /// An inside-aligned stroke.
    Stroke {
        /// Colour token.
        color: String,
        /// Opacity.
        alpha: Option<Micros>,
        /// Stroke width, in logical pixels.
        width: Micros,
        /// Response to the drive.
        swell: SwellDef,
        /// Geometry.
        geometry: GeometryDef,
    },
}

/// One material as authored.
#[derive(Debug)]
pub struct MaterialDef {
    /// Its layers, bottom first.
    pub layers: Vec<LayerDef>,
    /// Surfaces it is painted over.
    pub over: Vec<String>,
    /// Foregrounds drawn on it.
    pub text: Vec<String>,
    /// Foregrounds drawn on it when it is lit.
    pub text_lit: Vec<String>,
    /// What it is for.
    pub description: String,
    /// A step of the elevation scale; none lies on the canvas.
    pub elevation: Option<String>,
}

/// How many centres an ambient field has room for.
pub const FIELD_CENTRES: usize = 4;

/// One centre of an ambient field.
#[derive(Clone, Copy, PartialEq, Eq, Debug)]
pub struct FieldCentre {
    /// Where it sits at phase zero.
    pub at: (Micros, Micros),
    /// How far it travels over one cycle.
    pub drift: (Micros, Micros),
    /// How far its light reaches.
    pub reach: Micros,
    /// Where it starts in the cycle, in turns.
    pub phase: Micros,
    /// Its light.
    pub tint: Srgba,
}

impl FieldCentre {
    /// A centre that lights nothing.
    pub open spec fn dark() -> FieldCentre {
        FieldCentre { at: (0, 0), drift: (0, 0), reach: 0, phase: 0, tint: Srgba::clear() }
    }
}

/// The centres of an ambient field; those that are not used light nothing.
#[derive(Clone, Copy, PartialEq, Eq, Debug)]
pub struct FieldWash {
    /// The first centre.
    pub first: FieldCentre,
    /// The second centre.
    pub second: FieldCentre,
    /// The third centre.
    pub third: FieldCentre,
    /// The fourth centre.
    pub fourth: FieldCentre,
}

impl FieldWash {
    /// A field without light.
    pub open spec fn unlit() -> FieldWash {
        FieldWash {
            first: FieldCentre::dark(),
            second: FieldCentre::dark(),
            third: FieldCentre::dark(),
            fourth: FieldCentre::dark(),
        }
    }

    /// The same field with centre number `slot` replaced.
    pub open spec fn with(self, slot: int, centre: FieldCentre) -> FieldWash {
        if slot == 0 {
            FieldWash { first: centre, ..self }
        } else if slot == 1 {
            FieldWash { second: centre, ..self }
        } else if slot == 2 {
            FieldWash { third: centre, ..self }
        } else {
            FieldWash { fourth: centre, ..self }
        }
    }

    /// The centres, in order.
    pub open spec fn centres(self) -> Seq<FieldCentre> {
        seq![self.first, self.second, self.third, self.fourth]
    }

    /// A field without light.
    pub fn dark() -> (result: FieldWash)
        ensures
            result == FieldWash::unlit(),
    {
        let none: FieldCentre = FieldCentre {
            at: (0, 0),
            drift: (0, 0),
            reach: 0,
            phase: 0,
            tint: Srgba::transparent(),
        };
        FieldWash { first: none, second: none, third: none, fourth: none }
    }

    /// The same field with centre number `slot` replaced.
    pub fn set(self, slot: usize, centre: FieldCentre) -> (result: FieldWash)
        requires
            slot < FIELD_CENTRES,
        ensures
            result == self.with(slot as int, centre),
    {
        if slot == 0 {
            FieldWash { first: centre, ..self }
        } else if slot == 1 {
            FieldWash { second: centre, ..self }
        } else if slot == 2 {
            FieldWash { third: centre, ..self }
        } else {
            FieldWash { fourth: centre, ..self }
        }
    }

    /// Centre number `slot`.
    pub fn get(&self, slot: usize) -> (result: FieldCentre)
        requires
            slot < FIELD_CENTRES,
        ensures
            result == self.centres()[slot as int],
    {
        if slot == 0 {
            self.first
        } else if slot == 1 {
            self.second
        } else if slot == 2 {
            self.third
        } else {
            self.fourth
        }
    }
}

/// A layer with its colours resolved and its lengths in logical pixels.
#[derive(Clone, Copy, PartialEq, Eq, Debug)]
pub struct Layer {
    /// What it is drawn with.
    pub kind: PrimKind,
    /// The near stop; the only stop of a fill or a stroke.
    pub near: Srgba,
    /// The far stop.
    pub far: Srgba,
    /// What a ramp becomes with effects off.
    pub flat: Srgba,
    /// Degrees, for a ramp.
    pub angle: Micros,
    /// Halo falloff.
    pub reach: Micros,
    /// Stroke width, or a rim's reach.
    pub width: Micros,
    /// All-sides inset.
    pub inset: Micros,
    /// Edge band.
    pub edge: Option<Edge>,
    /// Edge-band thickness.
    pub thickness: Micros,
    /// Radius override.
    pub radius: Option<Micros>,
    /// Response to the drive.
    pub swell: SwellDef,
    /// Response to the phase.
    pub phase: PhaseDef,
    /// Lit-edge width.
    pub bevel: Micros,
    /// Roughness.
    pub roughness: Micros,
    /// Metalness.
    pub metallic: Micros,
    /// Environment strength.
    pub env: Micros,
    /// Edge emission.
    pub emission: Micros,
    /// Emission shimmer.
    pub flicker: Micros,
    /// The colour it emits into the scene.
    pub emits: Srgba,
    /// How brightly it emits into the scene.
    pub emits_strength: Micros,
    /// Displacement along the shadow direction.
    pub offset: Micros,
    /// The ambient field's centres.
    pub field: FieldWash,
    /// How much of the field's colour reaches its ground.
    pub amplitude: Micros,
}

/// Every centre's light is a colour.
pub open spec fn wash_is_valid(wash: FieldWash) -> bool {
    &&& wash.first.tint.valid()
    &&& wash.second.tint.valid()
    &&& wash.third.tint.valid()
    &&& wash.fourth.tint.valid()
}

impl Layer {
    /// Every colour of the layer is a colour.
    pub open spec fn colors_are_valid(self) -> bool {
        &&& self.near.valid()
        &&& self.far.valid()
        &&& self.flat.valid()
        &&& self.emits.valid()
        &&& wash_is_valid(self.field)
        &&& 0 <= self.amplitude <= MICRO
        &&& self.emission >= 0
        &&& self.flicker >= 0
        &&& self.emits_strength >= 0
    }
}

/// A resolved material: a stack of layers.
#[derive(Clone, Debug)]
pub struct Material {
    /// Its layers, bottom first.
    pub layers: Vec<Layer>,
    /// Surfaces it is painted over.
    pub over: Vec<String>,
    /// Foregrounds drawn on it.
    pub text: Vec<String>,
    /// Foregrounds drawn on it when it is lit.
    pub text_lit: Vec<String>,
    /// What it is for.
    pub description: String,
    /// How high it sits above the canvas, in logical pixels.
    pub elevation: Micros,
}

/// What the thing under a surface is made of, as far as the surface shows it.
#[derive(Clone, Copy, PartialEq, Eq, Debug, Structural)]
pub struct Substance {
    /// Lit-edge width, in logical pixels.
    pub bevel: Micros,
}

/// How much of its authored emission a lamp shows while its shimmer is at `ripple`.
pub open spec fn shimmered(ripple: int, amount: int) -> int {
    if amount <= 0 {
        1_000_000
    } else {
        1_000_000 + times(amount, ripple)
    }
}

/// What a swell multiplies by at `intensity`: one at rest, and the swell itself at full drive.
pub open spec fn loudness_of(swell: int, intensity: int) -> int {
    1_000_000 + times(swell - 1_000_000, clamped(intensity, 0, 1_000_000))
}

impl Srgba {
    /// The same colour, `factor` times as opaque but never past fully opaque.
    pub open spec fn swollen(self, factor: int) -> Srgba {
        Srgba { a: clamped(times(self.a as int, factor), 0, 1_000_000) as Micros, ..self }
    }
}

impl Drive {
    /// A drive whose phase and ripple are within reach.
    pub open spec fn sane(self) -> bool {
        &&& modest(self.phase as int)
        &&& -MICRO <= self.ripple <= MICRO
    }
}

/// Where a layer lands: a rounded rectangle in physical pixels.
#[derive(Clone, Copy, PartialEq, Eq, Debug, Structural)]
pub struct Shape {
    /// Left edge.
    pub x: Micros,
    /// Top edge.
    pub y: Micros,
    /// Width.
    pub w: Micros,
    /// Height.
    pub h: Micros,
    /// Corner radius.
    pub radius: Micros,
}

impl Layer {
    /// Every length is small enough to scale, and every colour is a colour.
    pub open spec fn sane(self) -> bool {
        &&& self.colors_are_valid()
        &&& fits(self.angle as int)
        &&& modest(self.reach as int)
        &&& modest(self.width as int)
        &&& modest(self.inset as int)
        &&& modest(self.thickness as int)
        &&& self.radius matches Some(radius) ==> modest(radius as int)
        &&& modest(self.swell.alpha as int)
        &&& modest(self.swell.reach as int)
        &&& modest(self.swell.width as int)
        &&& modest(self.phase.rotate as int)
        &&& modest(self.bevel as int)
        &&& modest(self.emission as int)
        &&& modest(self.flicker as int)
        &&& modest(self.offset as int)
    }

    /// The layer as the surface under it is made of: only a lit surface's bevel answers.
    pub open spec fn made_of(self, substance: Option<Substance>) -> Layer {
        match substance {
            Some(s) if self.kind == PrimKind::Pbr => Layer { bevel: s.bevel, ..self },
            _ => self,
        }
    }

    /// Whether anything on the layer answers to the drive's intensity.
    pub open spec fn answers_drive(self) -> bool {
        ||| self.swell.alpha != MICRO
        ||| self.swell.reach != MICRO
        ||| self.swell.width != MICRO
    }

    /// Whether anything on the layer answers to the drive's phase: a turning axis, or a lamp
    /// that shimmers without turning.
    pub open spec fn answers_phase(self) -> bool {
        self.phase.rotate != 0 || self.flicker > 0
    }

    /// The layer with its axis and its lamp where the phase has taken them.
    pub open spec fn turned(self, drive: Drive) -> Layer {
        if self.answers_phase() {
            Layer {
                angle: (self.angle + times(drive.phase as int, self.phase.rotate as int)
                    * 360) as Micros,
                emission: times(
                    self.emission as int,
                    shimmered(drive.ripple as int, self.flicker as int),
                ) as Micros,
                ..self
            }
        } else {
            self
        }
    }

    /// The layer as it is at `drive`.
    pub open spec fn at_drive(self, drive: Drive) -> Layer {
        if drive.intensity <= 0 || !self.answers_drive() {
            self.turned(drive)
        } else {
            let alpha = loudness_of(self.swell.alpha as int, drive.intensity as int);
            Layer {
                near: self.near.swollen(alpha),
                far: self.far.swollen(alpha),
                flat: self.flat.swollen(alpha),
                reach: times(
                    self.reach as int,
                    loudness_of(self.swell.reach as int, drive.intensity as int),
                ) as Micros,
                width: times(
                    self.width as int,
                    loudness_of(self.swell.width as int, drive.intensity as int),
                ) as Micros,
                ..self.turned(drive)
            }
        }
    }

    /// Which pass paints the layer: a halo reaches outside its shape.
    pub open spec fn its_pass(self) -> Pass {
        if self.kind == PrimKind::Glow {
            Pass::Bleed
        } else {
            Pass::Body
        }
    }

    /// Where the layer lands on `surface`, before a layer without any extent is dropped.
    pub open spec fn frame(self, surface: Surface) -> Shape {
        let scale = surface.scale as int;
        let inset = times(self.inset as int, scale);
        let shift = times(self.offset as int, scale);
        let x = surface.x + inset + times(surface.shadow_x as int, shift);
        let y = surface.y + inset + times(surface.shadow_y as int, shift);
        let w = surface.w - 2 * inset;
        let h = surface.h - 2 * inset;
        let band = max_of(times(self.thickness as int, scale), 1_000_000);
        let radius = match self.radius {
            Some(logical) => times(logical as int, scale),
            None => max_of(surface.radius - inset, 0),
        };
        match self.edge {
            None => Shape {
                x: x as Micros,
                y: y as Micros,
                w: w as Micros,
                h: h as Micros,
                radius: radius as Micros,
            },
            Some(Edge::Top) => Shape {
                x: x as Micros,
                y: y as Micros,
                w: w as Micros,
                h: band as Micros,
                radius: 0,
            },
            Some(Edge::Bottom) => Shape {
                x: x as Micros,
                y: (y + max_of(h - band, 0)) as Micros,
                w: w as Micros,
                h: band as Micros,
                radius: 0,
            },
            Some(Edge::Left) => Shape {
                x: x as Micros,
                y: y as Micros,
                w: band as Micros,
                h: h as Micros,
                radius: 0,
            },
            Some(Edge::Right) => Shape {
                x: (x + max_of(w - band, 0)) as Micros,
                y: y as Micros,
                w: band as Micros,
                h: h as Micros,
                radius: 0,
            },
        }
    }

    /// Where the layer lands on `surface`; nowhere if it has no extent there.
    pub open spec fn lands(self, surface: Surface) -> Option<Shape> {
        let frame = self.frame(surface);
        if frame.w > 0 && frame.h > 0 {
            Some(frame)
        } else {
            None
        }
    }

    /// This layer as the surface under it is made of.
    ///
    /// Only a lit surface's bevel answers. Roughness, metalness and the environment change how
    /// much light the whole surface returns, the part under the label too; a bevel only bends
    /// the light within its own width of the edge.
    pub fn substanced(self, substance: Option<Substance>) -> (result: Self)
        ensures
            result == self.made_of(substance),
    {
        match substance {
            Some(s) => {
                if self.kind == PrimKind::Pbr {
                    Layer { bevel: s.bevel, ..self }
                } else {
                    self
                }
            },
            None => self,
        }
    }

    /// This layer as it is at `drive`: the intensity makes it louder, up to the swell it was
    /// authored with, and the phase moves its axis and its lamp. A layer that states neither
    /// comes back untouched.
    pub fn driven(self, drive: Drive) -> (result: Self)
        requires
            self.sane(),
            drive.sane(),
        ensures
            result == self.at_drive(drive),
            result.near.valid() && result.far.valid() && result.flat.valid(),
            fits(result.reach as int) && fits(result.width as int),
    {
        let phased: Layer = if self.phased() {
            proof {
                lemma_times_modest(drive.phase as int, self.phase.rotate as int);
                lemma_shimmer_is_bounded(drive.ripple as int, self.flicker as int);
            }
            let turns: Micros = product(drive.phase, self.phase.rotate);
            let glow: Micros = Self::shimmer(drive.ripple, self.flicker);
            Layer { angle: self.angle + turns * 360, emission: product(self.emission, glow), ..self }
        } else {
            self
        };
        let intensity: Micros = hold_between(drive.intensity, 0, MICRO);
        if intensity <= 0 || !self.swells() {
            return phased;
        }
        let alpha: Micros = swell_factor(self.swell.alpha, intensity);
        let reach: Micros = swell_factor(self.swell.reach, intensity);
        let width: Micros = swell_factor(self.swell.width, intensity);
        proof {
            lemma_times_modest(self.reach as int, reach as int);
            lemma_times_modest(self.width as int, width as int);
        }
        Layer {
            near: louder(self.near, alpha),
            far: louder(self.far, alpha),
            flat: louder(self.flat, alpha),
            reach: product(self.reach, reach),
            width: product(self.width, width),
            ..phased
        }
    }

    /// How much of its authored emission a lamp shows while its shimmer is at `ripple`.
    pub fn shimmer(ripple: Micros, amount: Micros) -> (result: Micros)
        requires
            -MICRO <= ripple <= MICRO,
            modest(amount as int),
        ensures
            result == shimmered(ripple as int, amount as int),
    {
        if amount <= 0 {
            return MICRO;
        }
        proof {
            lemma_shimmer_is_bounded(ripple as int, amount as int);
        }
        MICRO + product(amount, ripple)
    }

    /// Whether anything on this layer answers to the drive's intensity.
    pub fn swells(self) -> (result: bool)
        ensures
            result == self.answers_drive(),
    {
        self.swell.alpha != MICRO || self.swell.reach != MICRO || self.swell.width != MICRO
    }

    /// Whether anything on this layer answers to the drive's phase.
    pub fn phased(self) -> (result: bool)
        ensures
            result == self.answers_phase(),
    {
        self.phase.rotate != 0 || self.flicker > 0
    }

    /// Which pass paints this layer.
    pub fn pass(self) -> (result: Pass)
        ensures
            result == self.its_pass(),
    {
        match self.kind {
            PrimKind::Glow => Pass::Bleed,
            _ => Pass::Body,
        }
    }
}

proof fn lemma_times_modest(a: int, b: int)
    requires
        modest(a),
        modest(b),
    ensures
        -1_000_000_000_000_000_000 <= times(a, b) <= 1_000_000_000_000_000_000,
        fits(times(a, b)),
{
    assert(-1_000_000_000_000_000_000_000_000 <= a * b <= 1_000_000_000_000_000_000_000_000)
        by (nonlinear_arith)
        requires
            -1_000_000_000_000 <= a <= 1_000_000_000_000,
            -1_000_000_000_000 <= b <= 1_000_000_000_000,
    ;
}

proof fn lemma_shimmer_is_bounded(ripple: int, amount: int)
    requires
        -1_000_000 <= ripple <= 1_000_000,
        modest(amount),
    ensures
        -1_000_000_000_000 <= shimmered(ripple, amount) <= 1_000_001_000_000,
        fits(shimmered(ripple, amount)),
{
    if amount > 0 {
        assert(-(amount * 1_000_000) <= amount * ripple <= amount * 1_000_000) by (nonlinear_arith)
            requires
                -1_000_000 <= ripple <= 1_000_000,
                amount > 0,
        ;
    }
}

/// A driven lamp's emission is what its shimmer makes of it, exactly.
pub(crate) proof fn lemma_lamp_fits(layer: Layer, drive: Drive)
    requires
        layer.sane(),
        drive.sane(),
    ensures
        layer.at_drive(drive).emission as int == if layer.answers_phase() {
            times(layer.emission as int, shimmered(drive.ripple as int, layer.flicker as int))
        } else {
            layer.emission as int
        },
{
    let e = layer.emission as int;
    let s = shimmered(drive.ripple as int, layer.flicker as int);
    lemma_shimmer_is_bounded(drive.ripple as int, layer.flicker as int);
    assert(-2_000_000_000_000_000_000_000_000 <= e * s <= 2_000_000_000_000_000_000_000_000)
        by (nonlinear_arith)
        requires
            0 <= e <= 1_000_000_000_000,
            -1_000_000_000_000 <= s <= 1_000_001_000_000,
    ;
}

/// What a swell multiplies by at `intensity`.
fn swell_factor(swell: Micros, intensity: Micros) -> (result: Micros)
    requires
        modest(swell as int),
        0 <= intensity <= MICRO,
    ensures
        result == loudness_of(swell as int, intensity as int),
        modest(result as int),
{
    proof {
        times_is_bounded(swell - 1_000_000, intensity as int, 1);
    }
    MICRO + product(swell - MICRO, intensity)
}

/// The same colour, `factor` times as opaque but never past fully opaque.
fn louder(color: Srgba, factor: Micros) -> (result: Srgba)
    requires
        color.valid(),
        modest(factor as int),
    ensures
        result == color.swollen(factor as int),
        result.valid(),
{
    Srgba { a: hold_between(product(color.a, factor), 0, MICRO), ..color }
}

/// Where one layer lands on the surface, or `None` if it collapses to nothing.
pub fn layer_shape(layer: Layer, surface: Surface) -> (result: Option<Shape>)
    requires
        modest(layer.inset as int),
        modest(layer.offset as int),
        modest(layer.thickness as int),
        layer.radius matches Some(radius) ==> modest(radius as int),
        surface.sane(),
    ensures
        result == layer.lands(surface),
{
    let scale: Micros = surface.scale;
    proof {
        lemma_times_modest(layer.inset as int, scale as int);
        lemma_times_modest(layer.offset as int, scale as int);
        lemma_times_modest(layer.thickness as int, scale as int);
    }
    let inset: Micros = product(layer.inset, scale);
    let shift: Micros = product(layer.offset, scale);
    proof {
        lemma_times_shift(surface.shadow_x as int, shift as int);
        lemma_times_shift(surface.shadow_y as int, shift as int);
    }
    let x: Micros = surface.x + inset + product(surface.shadow_x, shift);
    let y: Micros = surface.y + inset + product(surface.shadow_y, shift);
    let w: Micros = surface.w - 2 * inset;
    let h: Micros = surface.h - 2 * inset;
    let band: Micros = larger(product(layer.thickness, scale), MICRO);
    let shape: Shape = match layer.edge {
        None => {
            let radius: Micros = match layer.radius {
                Some(logical) => product(logical, scale),
                None => larger(surface.radius - inset, 0),
            };
            Shape { x, y, w, h, radius }
        },
        // A one-pixel band with a six-pixel radius is a dashed line, not a hairline.
        Some(edge) => match edge {
            Edge::Top => Shape { x, y, w, h: band, radius: 0 },
            Edge::Bottom => Shape { x, y: y + larger(h - band, 0), w, h: band, radius: 0 },
            Edge::Left => Shape { x, y, w: band, h, radius: 0 },
            Edge::Right => Shape { x: x + larger(w - band, 0), y, w: band, h, radius: 0 },
        },
    };
    if shape.w > 0 && shape.h > 0 {
        Some(shape)
    } else {
        None
    }
}

proof fn lemma_times_shift(a: int, b: int)
    requires
        modest(a),
        fits(b),
    ensures
        -2_000_000_000_000_000_000_000_000 <= times(a, b) <= 2_000_000_000_000_000_000_000_000,
{
    assert(-2_000_000_000_000_000_000_000_000_000_000 <= a * b
        <= 2_000_000_000_000_000_000_000_000_000_000) by (nonlinear_arith)
        requires
            -1_000_000_000_000 <= a <= 1_000_000_000_000,
            -1_152_921_504_606_846_976 <= b <= 1_152_921_504_606_846_976,
    ;
}

/// A layer that answers neither to the intensity nor to the phase is the same at every drive.
pub proof fn an_undriven_layer_is_untouched(layer: Layer, drive: Drive)
    requires
        !layer.answers_drive(),
        !layer.answers_phase(),
    ensures
        layer.at_drive(drive) == layer,
{
}

/// At rest every layer is as it was authored, but for a lamp that shimmers, which is where its
/// shimmer starts.
pub proof fn rest_is_as_authored(layer: Layer)
    requires
        layer.sane(),
    ensures
        layer.at_drive(Drive::resting()) == (Layer {
            emission: times(
                layer.emission as int,
                shimmered(RESTING_RIPPLE as int, layer.flicker as int),
            ) as Micros,
            ..layer
        }),
        layer.flicker <= 0 ==> layer.at_drive(Drive::resting()) == layer,
{
    assert(0 * layer.phase.rotate as int == 0);
    assert(times(0, layer.phase.rotate as int) == 0);
    times_one(layer.emission as int);
}

/// The phase moves no colour and no length: only where a ramp's stops land, and the lamp.
pub proof fn a_phase_cannot_change_a_colour(layer: Layer, intensity: Micros, a: Drive, b: Drive)
    requires
        a.intensity == intensity,
        b.intensity == intensity,
    ensures
        ({
            let x = layer.at_drive(a);
            let y = layer.at_drive(b);
            &&& x.near == y.near
            &&& x.far == y.far
            &&& x.flat == y.flat
            &&& x.reach == y.reach
            &&& x.width == y.width
            &&& x.field == y.field
            &&& x.amplitude == y.amplitude
        }),
{
}

/// A swell of at least one never makes a layer quieter, and louder drives are no quieter.
pub proof fn louder_drives_are_no_quieter(swell: int, low: int, high: int)
    requires
        swell >= 1_000_000,
        0 <= low <= high <= 1_000_000,
    ensures
        1_000_000 <= loudness_of(swell, low) <= loudness_of(swell, high) <= swell,
{
    let d = swell - 1_000_000;
    assert(0 <= d * low <= d * high <= d * 1_000_000) by (nonlinear_arith)
        requires
            d >= 0,
            0 <= low <= high <= 1_000_000,
    ;
}

/// A layer at a surface scale of one lands inside its surface by its inset on every side, displaced
/// along the shadow by its offset. An edge band lies along the edge it is named for, as thick as it is
/// authored and never thinner than a pixel.
pub proof fn a_layer_lands_where_it_is_authored(layer: Layer, surface: Surface)
    requires
        modest(layer.inset as int),
        modest(layer.offset as int),
        modest(layer.thickness as int),
        layer.radius matches Some(radius) ==> modest(radius as int),
        surface.sane(),
        surface.scale == 1_000_000,
    ensures
        ({
            let f = layer.frame(surface);
            let dx = times(surface.shadow_x as int, layer.offset as int);
            let dy = times(surface.shadow_y as int, layer.offset as int);
            let left = surface.x + layer.inset + dx;
            let top = surface.y + layer.inset + dy;
            let right = surface.x + surface.w - layer.inset + dx;
            let bottom = surface.y + surface.h - layer.inset + dy;
            let thick = max_of(layer.thickness as int, 1_000_000);
            &&& layer.edge is None ==> f.x == left && f.y == top && f.x + f.w == right && f.y + f.h
                == bottom && f.radius == (match layer.radius {
                Some(radius) => radius as int,
                None => max_of(surface.radius - layer.inset, 0),
            })
            &&& layer.edge is Some ==> f.radius == 0
            &&& layer.edge == Some(Edge::Top) ==> f.x == left && f.y == top && f.x + f.w == right
                && f.h == thick
            &&& layer.edge == Some(Edge::Left) ==> f.x == left && f.y == top && f.y + f.h == bottom
                && f.w == thick
            &&& layer.edge == Some(Edge::Bottom) && bottom - top >= thick ==> f.x == left && f.x + f.w
                == right && f.y + f.h == bottom && f.h == thick
            &&& layer.edge == Some(Edge::Right) && right - left >= thick ==> f.y == top && f.y + f.h
                == bottom && f.x + f.w == right && f.w == thick
            &&& layer.lands(surface) is Some <==> f.w > 0 && f.h > 0
            &&& layer.lands(surface) matches Some(shape) ==> shape == f
        }),
{
    times_one(layer.inset as int);
    times_one(layer.offset as int);
    times_one(layer.thickness as int);
    if let Some(radius) = layer.radius {
        times_one(radius as int);
    }
    lemma_times_modest(surface.shadow_x as int, layer.offset as int);
    lemma_times_modest(surface.shadow_y as int, layer.offset as int);
}

/// At full drive a layer is as loud as its swell says, and its kind, its place and its hue are as they
/// were.
pub proof fn a_drive_takes_a_layer_to_its_swell(layer: Layer, drive: Drive)
    requires
        layer.sane(),
        drive.intensity >= 1_000_000,
    ensures
        ({
            let loud = layer.at_drive(drive);
            &&& layer.answers_drive() ==> loud.reach == times(
                layer.reach as int,
                layer.swell.reach as int,
            ) && loud.width == times(layer.width as int, layer.swell.width as int) && loud.near.a
                == clamped(times(layer.near.a as int, layer.swell.alpha as int), 0, 1_000_000)
            &&& loud.near.r == layer.near.r && loud.near.g == layer.near.g && loud.near.b
                == layer.near.b
            &&& loud.far.r == layer.far.r && loud.far.g == layer.far.g && loud.far.b == layer.far.b
            &&& loud.flat.r == layer.flat.r && loud.flat.g == layer.flat.g && loud.flat.b
                == layer.flat.b
            &&& loud.kind == layer.kind
            &&& loud.inset == layer.inset
            &&& loud.edge == layer.edge
            &&& loud.offset == layer.offset
            &&& loud.bevel == layer.bevel
            &&& loud.roughness == layer.roughness
            &&& loud.metallic == layer.metallic
        }),
{
    times_one(layer.swell.alpha - 1_000_000);
    times_one(layer.swell.reach - 1_000_000);
    times_one(layer.swell.width - 1_000_000);
    lemma_times_modest(layer.reach as int, layer.swell.reach as int);
    lemma_times_modest(layer.width as int, layer.swell.width as int);
}

/// What a surface is made of changes the bevel of what is lit, and nothing else.
pub proof fn a_substance_is_a_bevel(layer: Layer, substance: Substance)
    ensures
        layer.made_of(None) == layer,
        layer.kind == PrimKind::Pbr ==> layer.made_of(Some(substance)) == (Layer {
            bevel: substance.bevel,
            ..layer
        }),
        layer.kind != PrimKind::Pbr ==> layer.made_of(Some(substance)) == layer,
{
}

/// A turn is told by what it is past whole turns: one whole turn more or less is the same, and a part of
/// one is itself. What is no number is no turn.
pub proof fn whole_turns_do_not_count(x: Micros, y: Micros)
    requires
        y == x + 1_000_000,
    ensures
        turn_of(Reading::Finite(x)) == turn_of(Reading::Finite(y)),
        0 <= turn_of(Reading::Finite(x)) < 1_000_000,
        0 <= x < 1_000_000 ==> turn_of(Reading::Finite(x)) == x,
        turn_of(Reading::NotANumber) == 0,
        turn_of(Reading::Infinite) == 0,
        turn_of(Reading::NegativeInfinite) == 0,
{
}

/// Every drive takes a layer's lengths and its opacity as far as they swell, whether or not anything of
/// it does; what swells by nothing stays.
pub proof fn every_drive_swells_what_swells(layer: Layer, drive: Drive)
    requires
        drive.intensity > 0,
    ensures
        layer.at_drive(drive).width == times(
            layer.width as int,
            loudness_of(layer.swell.width as int, drive.intensity as int),
        ) as Micros,
        layer.at_drive(drive).reach == times(
            layer.reach as int,
            loudness_of(layer.swell.reach as int, drive.intensity as int),
        ) as Micros,
        layer.colors_are_valid() ==> layer.at_drive(drive).near.a == clamped(
            times(
                layer.near.a as int,
                loudness_of(layer.swell.alpha as int, drive.intensity as int),
            ),
            0,
            1_000_000,
        ),
        layer.colors_are_valid() ==> layer.at_drive(drive).far.a == clamped(
            times(
                layer.far.a as int,
                loudness_of(layer.swell.alpha as int, drive.intensity as int),
            ),
            0,
            1_000_000,
        ),
        layer.colors_are_valid() ==> layer.at_drive(drive).flat.a == clamped(
            times(
                layer.flat.a as int,
                loudness_of(layer.swell.alpha as int, drive.intensity as int),
            ),
            0,
            1_000_000,
        ),
        loudness_of(1_000_000, drive.intensity as int) == 1_000_000,
{
    assert(times(0, clamped(drive.intensity as int, 0, 1_000_000)) == 0) by {
        assert(0 * clamped(drive.intensity as int, 0, 1_000_000) == 0) by (nonlinear_arith);
    }
    crate::units::times_one(layer.width as int);
    crate::units::times_one(layer.reach as int);
    crate::units::times_one(layer.near.a as int);
    crate::units::times_one(layer.far.a as int);
    crate::units::times_one(layer.flat.a as int);
}

/// A layer on a scaled surface is placed as one whose lengths are that much longer is on a surface that
/// is not scaled.
pub proof fn lengths_scale_with_the_surface(layer: Layer, surface: Surface)
    requires
        modest(layer.inset as int),
        modest(layer.offset as int),
        modest(layer.thickness as int),
        layer.radius matches Some(radius) ==> modest(radius as int),
        0 <= surface.scale <= 1_000_000_000_000,
    ensures
        layer.frame(surface) == (Layer {
            inset: times(layer.inset as int, surface.scale as int) as Micros,
            offset: times(layer.offset as int, surface.scale as int) as Micros,
            thickness: times(layer.thickness as int, surface.scale as int) as Micros,
            radius: match layer.radius {
                Some(radius) => Some(times(radius as int, surface.scale as int) as Micros),
                None => None,
            },
            ..layer
        }).frame(Surface { scale: 1_000_000, ..surface }),
{
    let s = surface.scale as int;
    crate::units::times_is_bounded(layer.inset as int, s, 1_000_000);
    crate::units::times_is_bounded(layer.offset as int, s, 1_000_000);
    crate::units::times_is_bounded(layer.thickness as int, s, 1_000_000);
    crate::units::times_one(times(layer.inset as int, s));
    crate::units::times_one(times(layer.offset as int, s));
    crate::units::times_one(times(layer.thickness as int, s));
    if let Some(radius) = layer.radius {
        crate::units::times_is_bounded(radius as int, s, 1_000_000);
        crate::units::times_one(times(radius as int, s));
    }
}

/// A layer turns as far as the phase has got of its turns, a turn being three hundred and sixty degrees,
/// and gives more or less light as the ripple rises or falls, as much as it flickers.
pub proof fn a_layer_turns_with_the_phase(layer: Layer, drive: Drive)
    requires
        layer.sane(),
        0 <= drive.phase <= 1_000_000,
        -1_000_000 <= drive.ripple <= 1_000_000,
    ensures
        ({
            let turned = layer.turned(drive);
            let by = turned.angle - layer.angle;
            &&& 0 <= 360 * (drive.phase * layer.phase.rotate) - by * 1_000_000 < 360_000_000
            &&& drive.phase == 1_000_000 ==> by == 360 * layer.phase.rotate
            &&& layer.phase.rotate == 0 ==> by == 0
            &&& layer.flicker <= 0 ==> turned.emission == layer.emission
            &&& layer.flicker > 0 ==> turned.emission == times(
                layer.emission as int,
                1_000_000 + times(layer.flicker as int, drive.ripple as int),
            ) as Micros
            &&& turned == (Layer { angle: turned.angle, emission: turned.emission, ..layer })
        }),
{
    let p = drive.phase as int;
    let r = layer.phase.rotate as int;
    crate::units::times_is_bounded(r, p, 1);
    assert(p * r == r * p) by (nonlinear_arith);
    crate::units::times_one(layer.emission as int);
    let whole = times(p, r);
    assert(whole == times(r, p));
    assert(-1_000_000_000_000 <= whole <= 1_000_000_000_000);
    assert((layer.angle + whole * 360) as Micros == layer.angle + whole * 360);
    assert(whole * 1_000_000 <= p * r < whole * 1_000_000 + 1_000_000);
    if p == 1_000_000 {
        crate::units::times_one(r);
    }
    if r == 0 {
        assert(p * r == 0) by (nonlinear_arith)
            requires
                r == 0,
        ;
    }
}

} // verus!

//! From names to values: what the palette and the scales make of an authored material.

use crate::material::{
    modest, scaled, wash_is_valid, FieldCentre, FieldCentreDef, FieldWash, GeometryDef, Layer, LayerDef,
    Material, MaterialDef, PhaseDef, PrimKind, Srgba, SwellDef, Edge, FIELD_CENTRES,
};
use crate::text;
use crate::units::{clamped, fits, hold_between, larger, max_of, Micros, MICRO};
use vstd::prelude::*;

verus! {

/// The value of the first entry under `name`.
pub open spec fn entry<T>(table: Seq<(String, T)>, name: Seq<char>) -> Option<T>
    decreases table.len(),
{
    if table.len() == 0 {
        None
    } else if table[0].0@ == name {
        Some(table[0].1)
    } else {
        entry(table.drop_first(), name)
    }
}

/// The value of the first entry under `name`.
fn look_up<T: Copy>(table: &Vec<(String, T)>, name: &String) -> (result: Option<T>)
    ensures
        result == entry(table@, name@),
{
    let mut i: usize = 0;
    assert(table@.skip(0) =~= table@);
    while i < table.len()
        invariant
            i <= table@.len(),
            entry(table@, name@) == entry(table@.skip(i as int), name@),
        decreases table@.len() - i,
    {
        assert(table@.skip(i as int).drop_first() =~= table@.skip(i as int + 1));
        if text::same(table[i].0.as_str(), name.as_str()) {
            return Some(table[i].1);
        }
        i = i + 1;
    }
    None
}

/// Whether a name comes before another: it has the smaller character where they first differ, or it
/// is how the other one begins.
pub open spec fn comes_before(a: Seq<char>, b: Seq<char>) -> bool {
    exists|k: int|
        {
            &&& 0 <= k <= a.len()
            &&& k < b.len()
            &&& #[trigger] a.take(k) == b.take(k)
            &&& k == a.len() || a[k] < b[k]
        }
}

/// Of two names only one can come before the other.
pub proof fn names_have_an_order(a: Seq<char>, b: Seq<char>)
    requires
        comes_before(a, b),
    ensures
        a != b,
        !comes_before(b, a),
{
    let k = choose|k: int|
        {
            &&& 0 <= k <= a.len()
            &&& k < b.len()
            &&& #[trigger] a.take(k) == b.take(k)
            &&& k == a.len() || a[k] < b[k]
        };
    if comes_before(b, a) {
        let l = choose|l: int|
            {
                &&& 0 <= l <= b.len()
                &&& l < a.len()
                &&& #[trigger] b.take(l) == a.take(l)
                &&& l == b.len() || b[l] < a[l]
            };
        if k < l {
            assert(a.take(l)[k] == a[k] && b.take(l)[k] == b[k]);
        } else if l < k {
            assert(a.take(k)[l] == a[l] && b.take(k)[l] == b[l]);
        }
    }
}

/// Whether a table is kept by name: each name comes before the next, so that none is there twice.
pub open spec fn by_name<T>(table: Seq<(String, T)>) -> bool {
    forall|i: int, j: int|
        0 <= i < j < table.len() ==> comes_before(
            (#[trigger] table[i]).0@,
            (#[trigger] table[j]).0@,
        )
}

/// In a table that is kept by name each name is there once, and its entry is what it resolves to.
pub proof fn a_name_has_one_entry<T>(table: Seq<(String, T)>, at: int)
    requires
        by_name(table),
        0 <= at < table.len(),
    ensures
        entry(table, table[at].0@) == Some(table[at].1),
        forall|i: int| 0 <= i < table.len() && i != at ==> (#[trigger] table[i]).0@ != table[at].0@,
    decreases table.len(),
{
    if at > 0 {
        let rest = table.drop_first();
        assert forall|i: int, j: int| 0 <= i < j < rest.len() implies comes_before(
            (#[trigger] rest[i]).0@,
            (#[trigger] rest[j]).0@,
        ) by {
            assert(rest[i] == table[i + 1] && rest[j] == table[j + 1]);
        }
        assert(rest[at - 1] == table[at]);
        a_name_has_one_entry(rest, at - 1);
        assert(comes_before(table[0].0@, table[at].0@));
    }
}

/// What names in a material resolve to: the palette and the scales.
#[derive(Debug)]
pub struct Scales {
    /// Colours by token.
    pub colors: Vec<(String, Srgba)>,
    /// Lengths by step of the space scale.
    pub space: Vec<(String, Micros)>,
    /// Radii by class.
    pub radius: Vec<(String, Micros)>,
    /// Heights by step of the elevation scale.
    pub elevation: Vec<(String, Micros)>,
}

impl Scales {
    /// Every colour of the palette is a colour.
    pub open spec fn sane(self) -> bool {
        forall|i: int| 0 <= i < self.colors@.len() ==> (#[trigger] self.colors@[i]).1.valid()
    }

    /// The palette and every scale are kept by name.
    pub open spec fn is_by_name(self) -> bool {
        &&& by_name(self.colors@)
        &&& by_name(self.space@)
        &&& by_name(self.radius@)
        &&& by_name(self.elevation@)
    }
}

proof fn lemma_entries_are_valid(table: Seq<(String, Srgba)>, name: Seq<char>)
    requires
        forall|i: int| 0 <= i < table.len() ==> (#[trigger] table[i]).1.valid(),
    ensures
        entry(table, name) matches Some(color) ==> color.valid(),
    decreases table.len(),
{
    if table.len() > 0 {
        assert(table[0].1.valid());
        assert forall|i: int| 0 <= i < table.drop_first().len() implies (
        #[trigger] table.drop_first()[i]).1.valid() by {
            assert(table.drop_first()[i] == table[i + 1]);
        }
        lemma_entries_are_valid(table.drop_first(), name);
    }
}

/// What is wrong with a material.
pub enum Fault {
    /// It names a colour that does not exist.
    Token(Seq<char>),
    /// It names a step of the space scale that does not exist.
    Step(Seq<char>),
    /// It names a radius class that does not exist.
    Radius(Seq<char>),
    /// Its field has more centres than there is room for.
    Centres(nat),
    /// It names a step of the elevation scale that does not exist.
    Elevation(Seq<char>),
}

/// What is wrong with a material, as it is found.
#[derive(Debug)]
pub enum Missing {
    /// It names a colour that does not exist.
    Token(String),
    /// It names a step of the space scale that does not exist.
    Step(String),
    /// It names a radius class that does not exist.
    Radius(String),
    /// Its field has more centres than there is room for.
    Centres(usize),
    /// It names a step of the elevation scale that does not exist.
    Elevation(String),
}

impl Missing {
    /// What is wrong.
    pub open spec fn fault(self) -> Fault {
        match self {
            Missing::Token(name) => Fault::Token(name@),
            Missing::Step(name) => Fault::Step(name@),
            Missing::Radius(name) => Fault::Radius(name@),
            Missing::Centres(count) => Fault::Centres(count as nat),
            Missing::Elevation(name) => Fault::Elevation(name@),
        }
    }
}

/// Why the materials could not be resolved.
#[derive(Debug, PartialEq, Eq)]
pub enum TokenError {
    /// A material names a colour that does not exist.
    MaterialUnknownToken {
        /// The material.
        material: String,
        /// The name.
        token: String,
    },
    /// A material names a step of the space scale that does not exist.
    MaterialUnknownStep {
        /// The material.
        material: String,
        /// The name.
        step: String,
    },
    /// A material names a radius class that does not exist.
    MaterialUnknownRadius {
        /// The material.
        material: String,
        /// The name.
        class: String,
    },
    /// A material's field has more centres than there is room for.
    MaterialTooManyCentres {
        /// The material.
        material: String,
        /// How many it has.
        centres: usize,
        /// How many there is room for.
        limit: usize,
    },
    /// A material names a step of the elevation scale that does not exist.
    MaterialUnknownElevation {
        /// The material.
        material: String,
        /// The name.
        step: String,
    },
}

impl TokenError {
    /// Which material is wrong.
    pub open spec fn culprit(self) -> Seq<char> {
        match self {
            TokenError::MaterialUnknownToken { material, .. } => material@,
            TokenError::MaterialUnknownStep { material, .. } => material@,
            TokenError::MaterialUnknownRadius { material, .. } => material@,
            TokenError::MaterialTooManyCentres { material, .. } => material@,
            TokenError::MaterialUnknownElevation { material, .. } => material@,
        }
    }

    /// What is wrong with it.
    pub open spec fn fault(self) -> Fault {
        match self {
            TokenError::MaterialUnknownToken { token, .. } => Fault::Token(token@),
            TokenError::MaterialUnknownStep { step, .. } => Fault::Step(step@),
            TokenError::MaterialUnknownRadius { class, .. } => Fault::Radius(class@),
            TokenError::MaterialTooManyCentres { centres, .. } => Fault::Centres(centres as nat),
            TokenError::MaterialUnknownElevation { step, .. } => Fault::Elevation(step@),
        }
    }
}

/// A colour of the palette, as opaque as a layer says.
pub open spec fn tint_of(scales: Scales, name: Seq<char>, alpha: Option<Micros>) -> Result<
    Srgba,
    Fault,
> {
    match entry(scales.colors@, name) {
        None => Err(Fault::Token(name)),
        Some(color) => match alpha {
            Some(a) => Ok(color.times_alpha(clamped(a as int, 0, 1_000_000))),
            None => Ok(color),
        },
    }
}

/// A colour that may be left out, in favour of `otherwise`.
pub open spec fn tint_or(
    scales: Scales,
    name: Option<String>,
    alpha: Option<Micros>,
    otherwise: Srgba,
) -> Result<Srgba, Fault> {
    match name {
        Some(name) => tint_of(scales, name@, alpha),
        None => Ok(otherwise),
    }
}

/// A step of the space scale.
pub open spec fn step_of(scales: Scales, name: Seq<char>) -> Result<Micros, Fault> {
    match entry(scales.space@, name) {
        None => Err(Fault::Step(name)),
        Some(length) => Ok(length),
    }
}

/// The first `count` centres of a field.
pub open spec fn field_of(scales: Scales, centres: Seq<FieldCentreDef>, count: int) -> Result<
    FieldWash,
    Fault,
>
    decreases count,
{
    if count <= 0 {
        Ok(FieldWash::unlit())
    } else {
        match field_of(scales, centres, count - 1) {
            Err(fault) => Err(fault),
            Ok(wash) => {
                let def = centres[count - 1];
                match tint_of(scales, def.color@, Some(def.alpha)) {
                    Err(fault) => Err(fault),
                    Ok(tint) => Ok(
                        wash.with(
                            count - 1,
                            FieldCentre {
                                at: def.at,
                                drift: def.drift,
                                reach: def.reach,
                                phase: def.phase,
                                tint,
                            },
                        ),
                    ),
                }
            },
        }
    }
}

impl LayerDef {
    /// The layer's geometry.
    pub open spec fn shape(self) -> GeometryDef {
        match self {
            LayerDef::Fill { geometry, .. } => geometry,
            LayerDef::Gradient { geometry, .. } => geometry,
            LayerDef::Sweep { geometry, .. } => geometry,
            LayerDef::Field { geometry, .. } => geometry,
            LayerDef::Glow { geometry, .. } => geometry,
            LayerDef::Rim { geometry, .. } => geometry,
            LayerDef::Pbr { geometry, .. } => geometry,
            LayerDef::Stroke { geometry, .. } => geometry,
        }
    }

    /// The layer's response to the drive.
    pub open spec fn loudness(self) -> SwellDef {
        match self {
            LayerDef::Fill { swell, .. } => swell,
            LayerDef::Gradient { swell, .. } => swell,
            LayerDef::Sweep { swell, .. } => swell,
            LayerDef::Field { swell, .. } => swell,
            LayerDef::Glow { swell, .. } => swell,
            LayerDef::Rim { swell, .. } => swell,
            LayerDef::Pbr { swell, .. } => swell,
            LayerDef::Stroke { swell, .. } => swell,
        }
    }

    /// The layer's geometry.
    fn geometry(&self) -> (result: &GeometryDef)
        ensures
            *result == self.shape(),
    {
        match self {
            LayerDef::Fill { geometry, .. } => geometry,
            LayerDef::Gradient { geometry, .. } => geometry,
            LayerDef::Sweep { geometry, .. } => geometry,
            LayerDef::Field { geometry, .. } => geometry,
            LayerDef::Glow { geometry, .. } => geometry,
            LayerDef::Rim { geometry, .. } => geometry,
            LayerDef::Pbr { geometry, .. } => geometry,
            LayerDef::Stroke { geometry, .. } => geometry,
        }
    }

    /// The layer's response to the drive.
    fn swell(&self) -> (result: SwellDef)
        ensures
            result == self.loudness(),
    {
        match self {
            LayerDef::Fill { swell, .. } => *swell,
            LayerDef::Gradient { swell, .. } => *swell,
            LayerDef::Sweep { swell, .. } => *swell,
            LayerDef::Field { swell, .. } => *swell,
            LayerDef::Glow { swell, .. } => *swell,
            LayerDef::Rim { swell, .. } => *swell,
            LayerDef::Pbr { swell, .. } => *swell,
            LayerDef::Stroke { swell, .. } => *swell,
        }
    }
}

/// A layer that draws nothing yet, in its place.
pub open spec fn bare_layer(
    inset: Micros,
    edge: Option<Edge>,
    thickness: Option<Micros>,
    radius: Option<Micros>,
    offset: Micros,
    swell: SwellDef,
) -> Layer {
    Layer {
        kind: PrimKind::Rect,
        near: Srgba::clear(),
        far: Srgba::clear(),
        flat: Srgba::clear(),
        angle: 0,
        reach: 0,
        width: 0,
        inset,
        edge,
        thickness: match thickness {
            Some(t) => t,
            None => 1_000_000,
        },
        radius,
        swell,
        phase: PhaseDef { rotate: 0, flicker: 0 },
        bevel: 0,
        roughness: 1_000_000,
        metallic: 0,
        env: 0,
        emission: 0,
        flicker: 0,
        emits: Srgba::clear(),
        emits_strength: 0,
        offset,
        field: FieldWash::unlit(),
        amplitude: 0,
    }
}

/// What a layer's own names and numbers make of a bare layer.
pub open spec fn painted(def: LayerDef, scales: Scales, bare: Layer) -> Result<Layer, Fault> {
    match def {
        LayerDef::Fill { color, alpha, .. } => match tint_of(scales, color@, alpha) {
            Err(fault) => Err(fault),
            Ok(tint) => Ok(
                Layer { kind: PrimKind::Rect, near: tint, far: tint, flat: tint, ..bare },
            ),
        },
        LayerDef::Gradient { color, to, angle, alpha, flat, phase, .. } => ramp(
            scales,
            PrimKind::Gradient,
            color@,
            to@,
            angle,
            alpha,
            flat,
            phase,
            bare,
        ),
        LayerDef::Sweep { color, to, angle, alpha, flat, phase, .. } => ramp(
            scales,
            PrimKind::Sweep,
            color@,
            to@,
            angle,
            alpha,
            flat,
            phase,
            bare,
        ),
        LayerDef::Field { color, alpha, amplitude, centres, phase, .. } => match tint_of(
            scales,
            color@,
            alpha,
        ) {
            Err(fault) => Err(fault),
            Ok(ground) => if centres@.len() > FIELD_CENTRES {
                Err(Fault::Centres(centres@.len()))
            } else {
                match field_of(scales, centres@, centres@.len() as int) {
                    Err(fault) => Err(fault),
                    Ok(field) => Ok(
                        Layer {
                            kind: PrimKind::Field,
                            near: ground,
                            far: ground,
                            flat: ground,
                            field,
                            amplitude: clamped(amplitude as int, 0, 1_000_000) as Micros,
                            phase,
                            ..bare
                        },
                    ),
                }
            },
        },
        LayerDef::Glow { color, to, alpha, reach, .. } => match tint_of(scales, color@, alpha) {
            Err(fault) => Err(fault),
            Ok(near) => match tint_or(scales, to, alpha, near) {
                Err(fault) => Err(fault),
                Ok(far) => match step_of(scales, reach@) {
                    Err(fault) => Err(fault),
                    Ok(reach) => Ok(
                        Layer { kind: PrimKind::Glow, near, far, flat: near, reach, ..bare },
                    ),
                },
            },
        },
        LayerDef::Rim { color, alpha, width, .. } => match tint_of(scales, color@, alpha) {
            Err(fault) => Err(fault),
            Ok(tint) => Ok(
                Layer { kind: PrimKind::Rim, near: tint, far: tint, flat: tint, width, ..bare },
            ),
        },
        LayerDef::Pbr {
            color,
            alpha,
            bevel,
            roughness,
            metallic,
            env,
            emission,
            emits,
            emits_strength,
            phase,
            ..
        } => match tint_of(scales, color@, alpha) {
            Err(fault) => Err(fault),
            Ok(tint) => match tint_or(scales, emits, None, Srgba::clear()) {
                Err(fault) => Err(fault),
                Ok(light) => Ok(
                    Layer {
                        kind: PrimKind::Pbr,
                        near: tint,
                        far: tint,
                        flat: tint,
                        bevel,
                        roughness,
                        metallic,
                        env,
                        emission: max_of(emission as int, 0) as Micros,
                        flicker: max_of(phase.flicker as int, 0) as Micros,
                        emits: light,
                        emits_strength: max_of(emits_strength as int, 0) as Micros,
                        ..bare
                    },
                ),
            },
        },
        LayerDef::Stroke { color, alpha, width, .. } => match tint_of(scales, color@, alpha) {
            Err(fault) => Err(fault),
            Ok(tint) => Ok(
                Layer { kind: PrimKind::Stroke, near: tint, far: tint, flat: tint, width, ..bare },
            ),
        },
    }
}

/// A ramp: both stops, and the flat stop that it names or else its near one.
pub open spec fn ramp(
    scales: Scales,
    kind: PrimKind,
    color: Seq<char>,
    to: Seq<char>,
    angle: Micros,
    alpha: Option<Micros>,
    flat: Option<String>,
    phase: PhaseDef,
    bare: Layer,
) -> Result<Layer, Fault> {
    match tint_of(scales, color, alpha) {
        Err(fault) => Err(fault),
        Ok(near) => match tint_of(scales, to, alpha) {
            Err(fault) => Err(fault),
            Ok(far) => match tint_or(scales, flat, alpha, near) {
                Err(fault) => Err(fault),
                Ok(flat) => Ok(Layer { kind, near, far, flat, angle, phase, ..bare }),
            },
        },
    }
}

/// A layer resolved: its inset, its radius and then its colours, in that order.
pub open spec fn layer_of(def: LayerDef, scales: Scales) -> Result<Layer, Fault> {
    let geometry = def.shape();
    let inset = match geometry.inset {
        Some(name) => step_of(scales, name@),
        None => Ok(0),
    };
    match inset {
        Err(fault) => Err(fault),
        Ok(inset) => {
            let radius = match geometry.radius {
                Some(name) => match entry(scales.radius@, name@) {
                    None => Err(Fault::Radius(name@)),
                    Some(length) => Ok(Some(length)),
                },
                None => Ok(None::<Micros>),
            };
            match radius {
                Err(fault) => Err(fault),
                Ok(radius) => painted(
                    def,
                    scales,
                    bare_layer(
                        inset,
                        geometry.edge,
                        geometry.thickness,
                        radius,
                        geometry.offset,
                        def.loudness(),
                    ),
                ),
            }
        },
    }
}

/// `found` is what `wanted` says it should be.
pub open spec fn agrees<T>(found: Result<T, Missing>, wanted: Result<T, Fault>) -> bool {
    match (found, wanted) {
        (Ok(a), Ok(b)) => a == b,
        (Err(a), Err(b)) => a.fault() == b,
        _ => false,
    }
}

impl Scales {
    fn color(&self, name: &String, alpha: Option<Micros>) -> (result: Result<Srgba, Missing>)
        requires
            self.sane(),
        ensures
            agrees(result, tint_of(*self, name@, alpha)),
            result matches Ok(color) ==> color.valid(),
    {
        proof {
            lemma_entries_are_valid(self.colors@, name@);
        }
        match look_up(&self.colors, name) {
            None => Err(Missing::Token(name.clone())),
            Some(color) => Ok(at(color, alpha)),
        }
    }

    fn color_or(&self, name: &Option<String>, alpha: Option<Micros>, otherwise: Srgba) -> (result:
        Result<Srgba, Missing>)
        requires
            self.sane(),
            otherwise.valid(),
        ensures
            agrees(result, tint_or(*self, *name, alpha, otherwise)),
            result matches Ok(color) ==> color.valid(),
    {
        match name {
            Some(name) => self.color(name, alpha),
            None => Ok(otherwise),
        }
    }

    fn step(&self, name: &String) -> (result: Result<Micros, Missing>)
        ensures
            agrees(result, step_of(*self, name@)),
    {
        match look_up(&self.space, name) {
            None => Err(Missing::Step(name.clone())),
            Some(length) => Ok(length),
        }
    }

    fn centres(&self, defs: &Vec<FieldCentreDef>) -> (result: Result<FieldWash, Missing>)
        requires
            self.sane(),
            defs@.len() <= FIELD_CENTRES,
        ensures
            agrees(result, field_of(*self, defs@, defs@.len() as int)),
            result matches Ok(wash) ==> wash_is_valid(wash),
    {
        let mut wash: FieldWash = FieldWash::dark();
        let mut i: usize = 0;
        while i < defs.len()
            invariant
                self.sane(),
                i <= defs@.len() <= FIELD_CENTRES,
                wash_is_valid(wash),
                field_of(*self, defs@, i as int) == Ok::<FieldWash, Fault>(wash),
            decreases defs@.len() - i,
        {
            let def: &FieldCentreDef = &defs[i];
            match self.color(&def.color, Some(def.alpha)) {
                Err(missing) => {
                    proof {
                        lemma_fault_stays(*self, defs@, i as int + 1, defs@.len() as int);
                    }
                    return Err(missing);
                },
                Ok(tint) => {
                    wash = wash.set(
                        i,
                        FieldCentre {
                            at: def.at,
                            drift: def.drift,
                            reach: def.reach,
                            phase: def.phase,
                            tint,
                        },
                    );
                },
            }
            i = i + 1;
        }
        Ok(wash)
    }

    fn ramp(
        &self,
        kind: PrimKind,
        color: &String,
        to: &String,
        angle: Micros,
        alpha: Option<Micros>,
        flat: &Option<String>,
        phase: PhaseDef,
        bare: Layer,
    ) -> (result: Result<Layer, Missing>)
        requires
            self.sane(),
        ensures
            agrees(
                result,
                ramp(*self, kind, color@, to@, angle, alpha, *flat, phase, bare),
            ),
            result matches Ok(l) ==> l.near.valid() && l.far.valid() && l.flat.valid(),
    {
        let near: Srgba = match self.color(color, alpha) {
            Err(missing) => return Err(missing),
            Ok(near) => near,
        };
        let far: Srgba = match self.color(to, alpha) {
            Err(missing) => return Err(missing),
            Ok(far) => far,
        };
        let flat: Srgba = match self.color_or(flat, alpha, near) {
            Err(missing) => return Err(missing),
            Ok(flat) => flat,
        };
        Ok(Layer { kind, near, far, flat, angle, phase, ..bare })
    }
}

proof fn lemma_fault_stays(scales: Scales, centres: Seq<FieldCentreDef>, a: int, b: int)
    requires
        a <= b,
        field_of(scales, centres, a) is Err,
        a > 0,
    ensures
        field_of(scales, centres, b) == field_of(scales, centres, a),
    decreases b - a,
{
    if a < b {
        lemma_fault_stays(scales, centres, a, b - 1);
    }
}

/// Apply a layer's authored opacity to a token colour.
fn at(color: Srgba, alpha: Option<Micros>) -> (result: Srgba)
    requires
        color.valid(),
    ensures
        result == match alpha {
            Some(a) => color.times_alpha(clamped(a as int, 0, 1_000_000)),
            None => color,
        },
        result.valid(),
{
    match alpha {
        Some(alpha) => scaled(color, hold_between(alpha, 0, MICRO)),
        None => color,
    }
}

/// Resolve one layer against the palette and the scales.
pub fn resolve_layer(def: &LayerDef, scales: &Scales) -> (result: Result<Layer, Missing>)
    requires
        scales.sane(),
    ensures
        agrees(result, layer_of(*def, *scales)),
        result matches Ok(layer) ==> layer.colors_are_valid(),
{
    let geometry: &GeometryDef = def.geometry();
    let inset: Micros = match &geometry.inset {
        Some(name) => match scales.step(name) {
            Err(missing) => return Err(missing),
            Ok(length) => length,
        },
        None => 0,
    };
    let radius: Option<Micros> = match &geometry.radius {
        Some(name) => match look_up(&scales.radius, name) {
            None => return Err(Missing::Radius(name.clone())),
            Some(length) => Some(length),
        },
        None => None,
    };
    let bare: Layer = Layer {
        kind: PrimKind::Rect,
        near: Srgba::transparent(),
        far: Srgba::transparent(),
        flat: Srgba::transparent(),
        angle: 0,
        reach: 0,
        width: 0,
        inset,
        edge: geometry.edge,
        thickness: match geometry.thickness {
            Some(thickness) => thickness,
            None => MICRO,
        },
        radius,
        swell: def.swell(),
        phase: PhaseDef::default(),
        bevel: 0,
        roughness: MICRO,
        metallic: 0,
        env: 0,
        emission: 0,
        flicker: 0,
        emits: Srgba::transparent(),
        emits_strength: 0,
        offset: geometry.offset,
        field: FieldWash::dark(),
        amplitude: 0,
    };
    match def {
        LayerDef::Fill { color, alpha, .. } => match scales.color(color, *alpha) {
            Err(missing) => Err(missing),
            Ok(tint) => Ok(
                Layer { kind: PrimKind::Rect, near: tint, far: tint, flat: tint, ..bare },
            ),
        },
        LayerDef::Gradient { color, to, angle, alpha, flat, phase, .. } => scales.ramp(
            PrimKind::Gradient,
            color,
            to,
            *angle,
            *alpha,
            flat,
            *phase,
            bare,
        ),
        LayerDef::Sweep { color, to, angle, alpha, flat, phase, .. } => scales.ramp(
            PrimKind::Sweep,
            color,
            to,
            *angle,
            *alpha,
            flat,
            *phase,
            bare,
        ),
        LayerDef::Field { color, alpha, amplitude, centres, phase, .. } => {
            let ground: Srgba = match scales.color(color, *alpha) {
                Err(missing) => return Err(missing),
                Ok(ground) => ground,
            };
            // Refused rather than truncated: a centre that is authored and never drawn is a
            // layer that fails in silence.
            if centres.len() > FIELD_CENTRES {
                return Err(Missing::Centres(centres.len()));
            }
            match scales.centres(centres) {
                Err(missing) => Err(missing),
                Ok(field) => Ok(
                    Layer {
                        kind: PrimKind::Field,
                        near: ground,
                        far: ground,
                        flat: ground,
                        field,
                        amplitude: hold_between(*amplitude, 0, MICRO),
                        phase: *phase,
                        ..bare
                    },
                ),
            }
        },
        LayerDef::Glow { color, to, alpha, reach, .. } => {
            let near: Srgba = match scales.color(color, *alpha) {
                Err(missing) => return Err(missing),
                Ok(near) => near,
            };
            let far: Srgba = match scales.color_or(to, *alpha, near) {
                Err(missing) => return Err(missing),
                Ok(far) => far,
            };
            match scales.step(reach) {
                Err(missing) => Err(missing),
                Ok(reach) => Ok(
                    Layer { kind: PrimKind::Glow, near, far, flat: near, reach, ..bare },
                ),
            }
        },
        LayerDef::Rim { color, alpha, width, .. } => match scales.color(color, *alpha) {
            Err(missing) => Err(missing),
            Ok(tint) => Ok(
                Layer {
                    kind: PrimKind::Rim,
                    near: tint,
                    far: tint,
                    flat: tint,
                    width: *width,
                    ..bare
                },
            ),
        },
        LayerDef::Pbr {
            color,
            alpha,
            bevel,
            roughness,
            metallic,
            env,
            emission,
            emits,
            emits_strength,
            phase,
            ..
        } => {
            let tint: Srgba = match scales.color(color, *alpha) {
                Err(missing) => return Err(missing),
                Ok(tint) => tint,
            };
            match scales.color_or(emits, None, Srgba::transparent()) {
                Err(missing) => Err(missing),
                Ok(light) => Ok(
                    Layer {
                        kind: PrimKind::Pbr,
                        near: tint,
                        far: tint,
                        flat: tint,
                        bevel: *bevel,
                        roughness: *roughness,
                        metallic: *metallic,
                        env: *env,
                        emission: larger(*emission, 0),
                        flicker: larger(phase.flicker, 0),
                        emits: light,
                        emits_strength: larger(*emits_strength, 0),
                        ..bare
                    },
                ),
            }
        },
        LayerDef::Stroke { color, alpha, width, .. } => match scales.color(color, *alpha) {
            Err(missing) => Err(missing),
            Ok(tint) => Ok(
                Layer {
                    kind: PrimKind::Stroke,
                    near: tint,
                    far: tint,
                    flat: tint,
                    width: *width,
                    ..bare
                },
            ),
        },
    }
}

/// The first `count` layers of a material, or what is wrong with the first bad one of them.
pub open spec fn layers_of(defs: Seq<LayerDef>, scales: Scales, count: int) -> Result<
    Seq<Layer>,
    Fault,
>
    decreases count,
{
    if count <= 0 {
        Ok(Seq::empty())
    } else {
        match layers_of(defs, scales, count - 1) {
            Err(fault) => Err(fault),
            Ok(below) => match layer_of(defs[count - 1], scales) {
                Err(fault) => Err(fault),
                Ok(layer) => Ok(below.push(layer)),
            },
        }
    }
}

/// How high a material sits, if it says so.
pub open spec fn height_of(def: MaterialDef, scales: Scales) -> Result<Micros, Fault> {
    match def.elevation {
        None => Ok(0),
        Some(step) => match entry(scales.elevation@, step@) {
            None => Err(Fault::Elevation(step@)),
            Some(height) => Ok(height),
        },
    }
}

/// The first thing wrong with a material: its layers in order, and then its elevation.
pub open spec fn flaw(def: MaterialDef, scales: Scales) -> Option<Fault> {
    match layers_of(def.layers@, scales, def.layers@.len() as int) {
        Err(fault) => Some(fault),
        Ok(_) => match height_of(def, scales) {
            Err(fault) => Some(fault),
            Ok(_) => None,
        },
    }
}

/// Two lists of the same words.
pub open spec fn same_words(a: Seq<String>, b: Seq<String>) -> bool {
    &&& a.len() == b.len()
    &&& forall|i: int| 0 <= i < a.len() ==> (#[trigger] a[i])@ == b[i]@
}

/// `material` is what `def` says.
pub open spec fn is_resolved(def: MaterialDef, scales: Scales, material: Material) -> bool {
    &&& layers_of(def.layers@, scales, def.layers@.len() as int) == Ok::<Seq<Layer>, Fault>(
        material.layers@,
    )
    &&& height_of(def, scales) == Ok::<Micros, Fault>(material.elevation)
    &&& same_words(material.over@, def.over@)
    &&& same_words(material.text@, def.text@)
    &&& same_words(material.text_lit@, def.text_lit@)
    &&& material.description@ == def.description@
}

proof fn lemma_a_bad_layer_spoils_all(defs: Seq<LayerDef>, scales: Scales, a: int, b: int)
    requires
        0 < a <= b,
        layers_of(defs, scales, a) is Err,
    ensures
        layers_of(defs, scales, b) == layers_of(defs, scales, a),
    decreases b - a,
{
    if a < b {
        lemma_a_bad_layer_spoils_all(defs, scales, a, b - 1);
    }
}

fn copy_words(words: &Vec<String>) -> (result: Vec<String>)
    ensures
        same_words(result@, words@),
{
    let mut out: Vec<String> = Vec::new();
    let mut i: usize = 0;
    while i < words.len()
        invariant
            i <= words@.len(),
            out@.len() == i,
            forall|j: int| 0 <= j < i ==> (#[trigger] out@[j])@ == words@[j]@,
        decreases words@.len() - i,
    {
        out.push(words[i].clone());
        i = i + 1;
    }
    out
}

/// Resolve one material against the palette and the scales.
pub fn resolve(def: &MaterialDef, scales: &Scales) -> (result: Result<Material, Missing>)
    requires
        scales.sane(),
    ensures
        match result {
            Ok(material) => {
                &&& flaw(*def, *scales) is None
                &&& is_resolved(*def, *scales, material)
                &&& forall|i: int|
                    0 <= i < material.layers@.len() ==> (
                    #[trigger] material.layers@[i]).colors_are_valid()
            },
            Err(missing) => flaw(*def, *scales) == Some(missing.fault()),
        },
{
    let mut layers: Vec<Layer> = Vec::new();
    let mut i: usize = 0;
    while i < def.layers.len()
        invariant
            scales.sane(),
            i <= def.layers@.len(),
            layers_of(def.layers@, *scales, i as int) == Ok::<Seq<Layer>, Fault>(layers@),
            forall|j: int|
                0 <= j < layers@.len() ==> (#[trigger] layers@[j]).colors_are_valid(),
        decreases def.layers@.len() - i,
    {
        match resolve_layer(&def.layers[i], scales) {
            Err(missing) => {
                proof {
                    lemma_a_bad_layer_spoils_all(
                        def.layers@,
                        *scales,
                        i as int + 1,
                        def.layers@.len() as int,
                    );
                }
                return Err(missing);
            },
            Ok(layer) => layers.push(layer),
        }
        i = i + 1;
    }
    // A material that silently lay on the canvas would cast no shadow, so that an unknown step
    // is an error exactly as an unknown colour is.
    let elevation: Micros = match &def.elevation {
        None => 0,
        Some(step) => match look_up(&scales.elevation, step) {
            None => return Err(Missing::Elevation(step.clone())),
            Some(height) => height,
        },
    };
    Ok(
        Material {
            layers,
            over: copy_words(&def.over),
            text: copy_words(&def.text),
            text_lit: copy_words(&def.text_lit),
            description: def.description.clone(),
            elevation,
        },
    )
}

/// The same complaint, with the material that it is about.
fn blame(missing: Missing, material: &String) -> (result: TokenError)
    ensures
        result.fault() == missing.fault(),
        result.culprit() == material@,
        result matches TokenError::MaterialTooManyCentres { limit, .. } ==> limit == FIELD_CENTRES,
{
    let material: String = material.clone();
    match missing {
        Missing::Token(token) => TokenError::MaterialUnknownToken { material, token },
        Missing::Step(step) => TokenError::MaterialUnknownStep { material, step },
        Missing::Radius(class) => TokenError::MaterialUnknownRadius { material, class },
        Missing::Centres(centres) => TokenError::MaterialTooManyCentres {
            material,
            centres,
            limit: FIELD_CENTRES,
        },
        Missing::Elevation(step) => TokenError::MaterialUnknownElevation { material, step },
    }
}

/// Whether material number `at` is the first that is flawed.
pub open spec fn first_flaw(defs: Seq<(String, MaterialDef)>, scales: Scales, at: int) -> bool {
    &&& 0 <= at < defs.len()
    &&& flaw(defs[at].1, scales) is Some
    &&& forall|i: int| 0 <= i < at ==> flaw((#[trigger] defs[i]).1, scales) is None
}

/// Where materials are kept by name, the first that is flawed is the least of the flawed ones by
/// name: it is the one that is reported.
pub proof fn the_least_flawed_material_is_reported(
    defs: Seq<(String, MaterialDef)>,
    scales: Scales,
    at: int,
    other: int,
)
    requires
        by_name(defs),
        first_flaw(defs, scales, at),
        0 <= other < defs.len(),
        flaw(defs[other].1, scales) is Some,
    ensures
        other == at || comes_before(defs[at].0@, defs[other].0@),
{
    if other < at {
        assert(flaw(defs[other].1, scales) is None);
    }
}

/// What a name in a material resolves to is the one entry under it, where the palette and the scales
/// are kept by name.
pub proof fn names_resolve_to_their_entries(scales: Scales, at: int)
    requires
        scales.is_by_name(),
    ensures
        0 <= at < scales.colors@.len() ==> entry(scales.colors@, scales.colors@[at].0@)
            == Some(scales.colors@[at].1),
        0 <= at < scales.space@.len() ==> entry(scales.space@, scales.space@[at].0@) == Some(
            scales.space@[at].1,
        ),
        0 <= at < scales.radius@.len() ==> entry(scales.radius@, scales.radius@[at].0@) == Some(
            scales.radius@[at].1,
        ),
        0 <= at < scales.elevation@.len() ==> entry(
            scales.elevation@,
            scales.elevation@[at].0@,
        ) == Some(scales.elevation@[at].1),
{
    if 0 <= at < scales.colors@.len() {
        a_name_has_one_entry(scales.colors@, at);
    }
    if 0 <= at < scales.space@.len() {
        a_name_has_one_entry(scales.space@, at);
    }
    if 0 <= at < scales.radius@.len() {
        a_name_has_one_entry(scales.radius@, at);
    }
    if 0 <= at < scales.elevation@.len() {
        a_name_has_one_entry(scales.elevation@, at);
    }
}

/// Resolve every material against an already resolved palette, in the order given: where materials
/// are kept by name that is the order of their names, and so it is of what comes out. A material
/// that names what does not exist is an error rather than a transparent layer, because a
/// material that draws nothing looks exactly like one that was never painted.
pub fn resolve_all(defs: &Vec<(String, MaterialDef)>, scales: &Scales) -> (result: Result<
    Vec<(String, Material)>,
    TokenError,
>)
    requires
        scales.sane(),
    ensures
        match result {
            Ok(materials) => {
                &&& materials@.len() == defs@.len()
                &&& by_name(defs@) ==> by_name(materials@)
                &&& forall|i: int|
                    0 <= i < defs@.len() ==> {
                        &&& flaw((#[trigger] defs@[i]).1, *scales) is None
                        &&& materials@[i].0@ == defs@[i].0@
                        &&& is_resolved(defs@[i].1, *scales, materials@[i].1)
                        &&& forall|j: int|
                            0 <= j < materials@[i].1.layers@.len() ==> (
                            #[trigger] materials@[i].1.layers@[j]).colors_are_valid()
                    }
            },
            Err(error) => {
                &&& exists|at: int| #[trigger]
                    first_flaw(defs@, *scales, at) && error.culprit() == defs@[at].0@
                        && flaw(defs@[at].1, *scales) == Some(error.fault())
                &&& error matches TokenError::MaterialTooManyCentres { limit, .. } ==> limit
                    == FIELD_CENTRES
            },
        },
{
    let mut out: Vec<(String, Material)> = Vec::new();
    let mut i: usize = 0;
    while i < defs.len()
        invariant
            scales.sane(),
            i <= defs@.len(),
            out@.len() == i,
            forall|j: int|
                0 <= j < i ==> {
                    &&& flaw((#[trigger] defs@[j]).1, *scales) is None
                    &&& out@[j].0@ == defs@[j].0@
                    &&& is_resolved(defs@[j].1, *scales, out@[j].1)
                    &&& forall|k: int|
                        0 <= k < out@[j].1.layers@.len() ==> (
                        #[trigger] out@[j].1.layers@[k]).colors_are_valid()
                },
        decreases defs@.len() - i,
    {
        match resolve(&defs[i].1, scales) {
            Err(missing) => {
                let error: TokenError = blame(missing, &defs[i].0);
                assert(first_flaw(defs@, *scales, i as int));
                return Err(error);
            },
            Ok(material) => out.push((defs[i].0.clone(), material)),
        }
        i = i + 1;
    }
    proof {
        if by_name(defs@) {
            assert forall|a: int, b: int| 0 <= a < b < out@.len() implies comes_before(
                (#[trigger] out@[a]).0@,
                (#[trigger] out@[b]).0@,
            ) by {
                assert(comes_before(defs@[a].0@, defs@[b].0@));
            }
        }
    }
    Ok(out)
}

/// A material that resolves names nothing that does not exist: each of its layers resolves.
pub proof fn a_sound_material_has_only_sound_layers(def: MaterialDef, scales: Scales, i: int)
    requires
        flaw(def, scales) is None,
        0 <= i < def.layers@.len(),
    ensures
        layer_of(def.layers@[i], scales) is Ok,
{
    lemma_every_layer_resolves(def.layers@, scales, def.layers@.len() as int, i);
}

proof fn lemma_every_layer_resolves(defs: Seq<LayerDef>, scales: Scales, count: int, i: int)
    requires
        layers_of(defs, scales, count) is Ok,
        0 <= i < count <= defs.len(),
    ensures
        layers_of(defs, scales, count)->Ok_0.len() == count,
        layer_of(defs[i], scales) == Ok::<Layer, Fault>(layers_of(defs, scales, count)->Ok_0[i]),
    decreases count,
{
    lemma_as_many_layers(defs, scales, count - 1);
    if i < count - 1 {
        lemma_every_layer_resolves(defs, scales, count - 1, i);
    }
}

proof fn lemma_as_many_layers(defs: Seq<LayerDef>, scales: Scales, count: int)
    requires
        layers_of(defs, scales, count) is Ok,
        0 <= count,
    ensures
        layers_of(defs, scales, count)->Ok_0.len() == count,
    decreases count,
{
    if count > 0 {
        lemma_as_many_layers(defs, scales, count - 1);
    }
}

impl LayerDef {
    /// Every number that the layer is authored with is one that can be scaled.
    pub open spec fn is_modest(self) -> bool {
        &&& self.shape().thickness matches Some(thickness) ==> modest(thickness as int)
        &&& modest(self.shape().offset as int)
        &&& modest(self.loudness().alpha as int)
        &&& modest(self.loudness().reach as int)
        &&& modest(self.loudness().width as int)
        &&& match self {
            LayerDef::Gradient { angle, phase, .. } => fits(angle as int) && modest(
                phase.rotate as int,
            ),
            LayerDef::Sweep { angle, phase, .. } => fits(angle as int) && modest(
                phase.rotate as int,
            ),
            LayerDef::Field { phase, .. } => modest(phase.rotate as int),
            LayerDef::Rim { width, .. } => modest(width as int),
            LayerDef::Stroke { width, .. } => modest(width as int),
            LayerDef::Pbr { bevel, emission, phase, .. } => modest(bevel as int) && modest(
                emission as int,
            ) && modest(phase.flicker as int),
            _ => true,
        }
    }
}

impl Scales {
    /// Every length of the space scale and every radius is one that can be scaled.
    pub open spec fn is_modest(self) -> bool {
        &&& forall|i: int|
            0 <= i < self.space@.len() ==> modest((#[trigger] self.space@[i]).1 as int)
        &&& forall|i: int|
            0 <= i < self.radius@.len() ==> modest((#[trigger] self.radius@[i]).1 as int)
    }
}

/// A material of ordinary numbers can be drawn, whatever it names: where its own numbers and those
/// of the scales can be scaled, so can every length that they come to.
pub proof fn an_ordinary_material_can_be_drawn(def: MaterialDef, scales: Scales, material: Material)
    requires
        scales.sane(),
        scales.is_modest(),
        forall|i: int| 0 <= i < def.layers@.len() ==> (#[trigger] def.layers@[i]).is_modest(),
        is_resolved(def, scales, material),
    ensures
        material.sane(),
{
    let n = def.layers@.len() as int;
    lemma_as_many_layers(def.layers@, scales, n);
    assert forall|i: int| 0 <= i < material.layers@.len() implies (
    #[trigger] material.layers@[i]).sane() by {
        lemma_every_layer_resolves(def.layers@, scales, n, i);
        assert(def.layers@[i].is_modest());
        lemma_layer_is_sane(def.layers@[i], scales);
    }
}

proof fn lemma_layer_is_sane(def: LayerDef, scales: Scales)
    requires
        scales.sane(),
        scales.is_modest(),
        def.is_modest(),
    ensures
        layer_of(def, scales) matches Ok(layer) ==> layer.sane(),
{
    let geometry = def.shape();
    if let Some(name) = geometry.inset {
        lemma_entries_are_modest(scales.space@, name@);
    }
    if let Some(name) = geometry.radius {
        lemma_entries_are_modest(scales.radius@, name@);
    }
    match def {
        LayerDef::Fill { color, alpha, .. } => lemma_tint_is_valid(scales, color@, alpha),
        LayerDef::Gradient { color, to, alpha, flat, .. } => {
            lemma_tint_is_valid(scales, color@, alpha);
            lemma_tint_is_valid(scales, to@, alpha);
            if let Some(name) = flat {
                lemma_tint_is_valid(scales, name@, alpha);
            }
        },
        LayerDef::Sweep { color, to, alpha, flat, .. } => {
            lemma_tint_is_valid(scales, color@, alpha);
            lemma_tint_is_valid(scales, to@, alpha);
            if let Some(name) = flat {
                lemma_tint_is_valid(scales, name@, alpha);
            }
        },
        LayerDef::Field { color, alpha, centres, .. } => {
            lemma_tint_is_valid(scales, color@, alpha);
            lemma_field_is_valid(scales, centres@, centres@.len() as int);
        },
        LayerDef::Glow { color, to, alpha, reach, .. } => {
            lemma_tint_is_valid(scales, color@, alpha);
            if let Some(name) = to {
                lemma_tint_is_valid(scales, name@, alpha);
            }
            lemma_entries_are_modest(scales.space@, reach@);
        },
        LayerDef::Rim { color, alpha, .. } => lemma_tint_is_valid(scales, color@, alpha),
        LayerDef::Pbr { color, alpha, emits, .. } => {
            lemma_tint_is_valid(scales, color@, alpha);
            if let Some(name) = emits {
                lemma_tint_is_valid(scales, name@, None);
            }
        },
        LayerDef::Stroke { color, alpha, .. } => lemma_tint_is_valid(scales, color@, alpha),
    }
}

proof fn lemma_entries_are_modest(table: Seq<(String, Micros)>, name: Seq<char>)
    requires
        forall|i: int| 0 <= i < table.len() ==> modest((#[trigger] table[i]).1 as int),
    ensures
        entry(table, name) matches Some(length) ==> modest(length as int),
    decreases table.len(),
{
    if table.len() > 0 {
        assert(modest(table[0].1 as int));
        assert forall|i: int| 0 <= i < table.drop_first().len() implies modest(
            (#[trigger] table.drop_first()[i]).1 as int,
        ) by {
            assert(table.drop_first()[i] == table[i + 1]);
        }
        lemma_entries_are_modest(table.drop_first(), name);
    }
}

proof fn lemma_tint_is_valid(scales: Scales, name: Seq<char>, alpha: Option<Micros>)
    requires
        scales.sane(),
    ensures
        tint_of(scales, name, alpha) matches Ok(color) ==> color.valid(),
{
    lemma_entries_are_valid(scales.colors@, name);
    if let Some(color) = entry(scales.colors@, name) {
        if let Some(a) = alpha {
            crate::units::times_is_bounded(color.a as int, clamped(a as int, 0, 1_000_000), 1);
        }
    }
}

proof fn lemma_field_is_valid(scales: Scales, centres: Seq<FieldCentreDef>, count: int)
    requires
        scales.sane(),
    ensures
        field_of(scales, centres, count) matches Ok(wash) ==> wash_is_valid(wash),
    decreases count,
{
    if count > 0 {
        lemma_field_is_valid(scales, centres, count - 1);
        lemma_tint_is_valid(scales, centres[count - 1].color@, Some(centres[count - 1].alpha));
    }
}

/// Whether place `at` of a table is the first that has the name.
pub open spec fn is_first<T>(table: Seq<(String, T)>, name: Seq<char>, at: int) -> bool {
    &&& 0 <= at < table.len()
    &&& table[at].0@ == name
    &&& forall|i: int| 0 <= i < at ==> (#[trigger] table[i]).0@ != name
}

/// Whether a table has the name at all.
pub open spec fn knows<T>(table: Seq<(String, T)>, name: Seq<char>) -> bool {
    exists|at: int| 0 <= at < table.len() && (#[trigger] table[at]).0@ == name
}

/// Whether `value` is what a table has under the name.
pub open spec fn is_filed<T>(table: Seq<(String, T)>, name: Seq<char>, value: T) -> bool {
    exists|at: int| #[trigger] is_first(table, name, at) && table[at].1 == value
}

/// Whether `tint` is the colour of that name, as much less opaque as is said.
pub open spec fn is_shade(
    scales: Scales,
    name: Seq<char>,
    alpha: Option<Micros>,
    tint: Srgba,
) -> bool {
    exists|at: int|
        {
            let color = scales.colors@[at].1;
            &&& #[trigger] is_first(scales.colors@, name, at)
            &&& tint.r == color.r
            &&& tint.g == color.g
            &&& tint.b == color.b
            &&& match alpha {
                None => tint.a == color.a,
                Some(share) => {
                    &&& share >= 1_000_000 ==> tint.a == color.a
                    &&& share <= 0 ==> tint.a == 0
                    &&& 0 <= share <= 1_000_000 ==> share * color.a - 1_000_000 < tint.a * 1_000_000
                        <= share * color.a
                },
            }
        }
}

/// What a table has under a name is the first entry of that name, and it has nothing under a name that
/// no entry has.
pub proof fn an_entry_is_the_first_of_its_name<T>(table: Seq<(String, T)>, name: Seq<char>)
    ensures
        match entry(table, name) {
            Some(value) => is_filed(table, name, value),
            None => !knows(table, name),
        },
        knows(table, name) <==> entry(table, name) is Some,
    decreases table.len(),
{
    if table.len() == 0 {
    } else if table[0].0@ == name {
        assert(is_first(table, name, 0));
    } else {
        let rest = table.drop_first();
        an_entry_is_the_first_of_its_name(rest, name);
        if let Some(value) = entry(rest, name) {
            let at = choose|at: int| #[trigger] is_first(rest, name, at) && rest[at].1 == value;
            assert(table[at + 1] == rest[at]);
            assert forall|i: int| 0 <= i < at + 1 implies (#[trigger] table[i]).0@ != name by {
                if i > 0 {
                    assert(table[i] == rest[i - 1]);
                }
            }
            assert(is_first(table, name, at + 1));
        } else {
            assert forall|i: int| 0 <= i < table.len() implies (#[trigger] table[i]).0@ != name by {
                if i > 0 {
                    assert(table[i] == rest[i - 1]);
                }
            }
        }
    }
}

/// A tint that resolves is a shade of the colour it names, and it resolves exactly where that name is
/// known.
pub proof fn a_tint_is_a_shade_of_what_it_names(
    scales: Scales,
    name: Seq<char>,
    alpha: Option<Micros>,
)
    requires
        scales.sane(),
    ensures
        tint_of(scales, name, alpha) is Ok <==> knows(scales.colors@, name),
        tint_of(scales, name, alpha) matches Ok(tint) ==> is_shade(scales, name, alpha, tint),
        tint_of(scales, name, alpha) matches Err(fault) ==> fault == Fault::Token(name),
{
    let table = scales.colors@;
    an_entry_is_the_first_of_its_name(table, name);
    if let Some(color) = entry(table, name) {
        let at = choose|at: int| #[trigger] is_first(table, name, at) && table[at].1 == color;
        assert(scales.colors@[at].1.valid());
        if let Some(share) = alpha {
            let held = clamped(share as int, 0, 1_000_000);
            crate::units::times_is_bounded(color.a as int, held, 1);
            crate::units::times_one(color.a as int);
            assert(crate::units::times(color.a as int, 0) == 0);
            assert(share * color.a == color.a * share) by (nonlinear_arith);
        }
        assert(is_first(table, name, at));
    }
}

/// Whether a layer has the place, the form and the answer to the drive that are written down for it.
pub open spec fn has_geometry(
    layer: Layer,
    geometry: GeometryDef,
    swell: SwellDef,
    scales: Scales,
) -> bool {
    &&& match geometry.inset {
        Some(name) => is_filed(scales.space@, name@, layer.inset),
        None => layer.inset == 0,
    }
    &&& match geometry.radius {
        Some(name) => layer.radius matches Some(radius) && is_filed(scales.radius@, name@, radius),
        None => layer.radius is None,
    }
    &&& layer.edge == geometry.edge
    &&& layer.offset == geometry.offset
    &&& match geometry.thickness {
        Some(thickness) => layer.thickness == thickness,
        None => layer.thickness == 1_000_000,
    }
    &&& layer.swell == swell
}

/// A layer stands where it is written to stand, in the form it is written in, and answers the drive as
/// it is written to.
pub proof fn a_layer_keeps_its_geometry(def: LayerDef, scales: Scales)
    ensures
        layer_of(def, scales) matches Ok(layer) ==> match def {
            LayerDef::Fill { geometry, swell, .. } => has_geometry(layer, geometry, swell, scales),
            LayerDef::Gradient { geometry, swell, .. } => has_geometry(
                layer,
                geometry,
                swell,
                scales,
            ),
            LayerDef::Sweep { geometry, swell, .. } => has_geometry(layer, geometry, swell, scales),
            LayerDef::Field { geometry, swell, .. } => has_geometry(layer, geometry, swell, scales),
            LayerDef::Glow { geometry, swell, .. } => has_geometry(layer, geometry, swell, scales),
            LayerDef::Rim { geometry, swell, .. } => has_geometry(layer, geometry, swell, scales),
            LayerDef::Pbr { geometry, swell, .. } => has_geometry(layer, geometry, swell, scales),
            LayerDef::Stroke { geometry, swell, .. } => has_geometry(layer, geometry, swell, scales),
        },
{
    if let Some(name) = def.shape().inset {
        an_entry_is_the_first_of_its_name(scales.space@, name@);
    }
    if let Some(name) = def.shape().radius {
        an_entry_is_the_first_of_its_name(scales.radius@, name@);
    }
}

/// A layer is drawn as what it is written as: the primitive of its kind, in shades of the colours it
/// names, with the lengths and the substance it gives.
pub proof fn a_layer_is_what_it_is_written_as(def: LayerDef, scales: Scales)
    requires
        scales.sane(),
    ensures
        layer_of(def, scales) matches Ok(layer) ==> match def {
            LayerDef::Fill { color, alpha, .. } => {
                &&& layer.kind == PrimKind::Rect
                &&& is_shade(scales, color@, alpha, layer.near)
                &&& layer.far == layer.near
                &&& layer.flat == layer.near
            },
            LayerDef::Gradient { color, to, angle, alpha, flat, phase, .. } => {
                &&& layer.kind == PrimKind::Gradient
                &&& is_shade(scales, color@, alpha, layer.near)
                &&& is_shade(scales, to@, alpha, layer.far)
                &&& match flat {
                    Some(name) => is_shade(scales, name@, alpha, layer.flat),
                    None => layer.flat == layer.near,
                }
                &&& layer.angle == angle
                &&& layer.phase == phase
            },
            LayerDef::Sweep { color, to, angle, alpha, flat, phase, .. } => {
                &&& layer.kind == PrimKind::Sweep
                &&& is_shade(scales, color@, alpha, layer.near)
                &&& is_shade(scales, to@, alpha, layer.far)
                &&& match flat {
                    Some(name) => is_shade(scales, name@, alpha, layer.flat),
                    None => layer.flat == layer.near,
                }
                &&& layer.angle == angle
                &&& layer.phase == phase
            },
            LayerDef::Field { color, alpha, amplitude, phase, .. } => {
                &&& layer.kind == PrimKind::Field
                &&& is_shade(scales, color@, alpha, layer.near)
                &&& layer.far == layer.near
                &&& layer.flat == layer.near
                &&& 0 <= amplitude <= 1_000_000 ==> layer.amplitude == amplitude
                &&& amplitude < 0 ==> layer.amplitude == 0
                &&& amplitude > 1_000_000 ==> layer.amplitude == 1_000_000
                &&& layer.phase == phase
            },
            LayerDef::Glow { color, to, alpha, reach, .. } => {
                &&& layer.kind == PrimKind::Glow
                &&& is_shade(scales, color@, alpha, layer.near)
                &&& match to {
                    Some(name) => is_shade(scales, name@, alpha, layer.far),
                    None => layer.far == layer.near,
                }
                &&& layer.flat == layer.near
                &&& is_filed(scales.space@, reach@, layer.reach)
            },
            LayerDef::Rim { color, alpha, width, .. } => {
                &&& layer.kind == PrimKind::Rim
                &&& is_shade(scales, color@, alpha, layer.near)
                &&& layer.far == layer.near
                &&& layer.flat == layer.near
                &&& layer.width == width
            },
            LayerDef::Pbr {
                color,
                alpha,
                bevel,
                roughness,
                metallic,
                env,
                emission,
                emits,
                emits_strength,
                phase,
                ..
            } => {
                &&& layer.kind == PrimKind::Pbr
                &&& is_shade(scales, color@, alpha, layer.near)
                &&& layer.far == layer.near
                &&& layer.flat == layer.near
                &&& layer.bevel == bevel
                &&& layer.roughness == roughness
                &&& layer.metallic == metallic
                &&& layer.env == env
                &&& emission >= 0 ==> layer.emission == emission
                &&& emission < 0 ==> layer.emission == 0
                &&& phase.flicker >= 0 ==> layer.flicker == phase.flicker
                &&& phase.flicker < 0 ==> layer.flicker == 0
                &&& match emits {
                    Some(name) => is_shade(scales, name@, None, layer.emits),
                    None => layer.emits.a == 0,
                }
                &&& emits_strength >= 0 ==> layer.emits_strength == emits_strength
                &&& emits_strength < 0 ==> layer.emits_strength == 0
            },
            LayerDef::Stroke { color, alpha, width, .. } => {
                &&& layer.kind == PrimKind::Stroke
                &&& is_shade(scales, color@, alpha, layer.near)
                &&& layer.far == layer.near
                &&& layer.flat == layer.near
                &&& layer.width == width
            },
        },
{
    match def {
        LayerDef::Fill { color, alpha, .. } => a_tint_is_a_shade_of_what_it_names(
            scales,
            color@,
            alpha,
        ),
        LayerDef::Gradient { color, to, alpha, flat, .. } => lemma_ramp(
            scales,
            color@,
            to@,
            alpha,
            flat,
        ),
        LayerDef::Sweep { color, to, alpha, flat, .. } => lemma_ramp(
            scales,
            color@,
            to@,
            alpha,
            flat,
        ),
        LayerDef::Field { color, alpha, .. } => a_tint_is_a_shade_of_what_it_names(
            scales,
            color@,
            alpha,
        ),
        LayerDef::Glow { color, to, alpha, reach, .. } => {
            a_tint_is_a_shade_of_what_it_names(scales, color@, alpha);
            if let Some(name) = to {
                a_tint_is_a_shade_of_what_it_names(scales, name@, alpha);
            }
            an_entry_is_the_first_of_its_name(scales.space@, reach@);
        },
        LayerDef::Rim { color, alpha, .. } => a_tint_is_a_shade_of_what_it_names(
            scales,
            color@,
            alpha,
        ),
        LayerDef::Pbr { color, alpha, emits, .. } => {
            a_tint_is_a_shade_of_what_it_names(scales, color@, alpha);
            if let Some(name) = emits {
                a_tint_is_a_shade_of_what_it_names(scales, name@, None);
            }
        },
        LayerDef::Stroke { color, alpha, .. } => a_tint_is_a_shade_of_what_it_names(
            scales,
            color@,
            alpha,
        ),
    }
}

proof fn lemma_ramp(
    scales: Scales,
    color: Seq<char>,
    to: Seq<char>,
    alpha: Option<Micros>,
    flat: Option<String>,
)
    requires
        scales.sane(),
    ensures
        tint_of(scales, color, alpha) matches Ok(near) ==> is_shade(scales, color, alpha, near),
        tint_of(scales, to, alpha) matches Ok(far) ==> is_shade(scales, to, alpha, far),
        flat matches Some(name) ==> (tint_of(scales, name@, alpha) matches Ok(tint) ==> is_shade(
            scales,
            name@,
            alpha,
            tint,
        )),
{
    a_tint_is_a_shade_of_what_it_names(scales, color, alpha);
    a_tint_is_a_shade_of_what_it_names(scales, to, alpha);
    if let Some(name) = flat {
        a_tint_is_a_shade_of_what_it_names(scales, name@, alpha);
    }
}

/// Every centre of a field is where it is written, in a shade of the colour it names, in the order in
/// which they are written; no other centre is lit.
pub proof fn every_centre_is_where_it_is_written(
    scales: Scales,
    centres: Seq<FieldCentreDef>,
    count: int,
    i: int,
)
    requires
        scales.sane(),
        0 <= count <= centres.len(),
        count <= FIELD_CENTRES,
        0 <= i < FIELD_CENTRES,
    ensures
        field_of(scales, centres, count) matches Ok(wash) ==> {
            let lit = wash.centres()[i];
            &&& i < count ==> {
                &&& lit.at == centres[i].at
                &&& lit.drift == centres[i].drift
                &&& lit.reach == centres[i].reach
                &&& lit.phase == centres[i].phase
                &&& is_shade(scales, centres[i].color@, Some(centres[i].alpha), lit.tint)
            }
            &&& i >= count ==> lit.tint.a == 0
        },
        field_of(scales, centres, count) is Ok <==> forall|k: int|
            0 <= k < count ==> knows(scales.colors@, (#[trigger] centres[k]).color@),
    decreases count,
{
    if count > 0 {
        every_centre_is_where_it_is_written(scales, centres, count - 1, i);
        let def = centres[count - 1];
        a_tint_is_a_shade_of_what_it_names(scales, def.color@, Some(def.alpha));
    }
}

/// The layers of a material are its written layers, each resolved by itself, in their order.
pub proof fn layers_resolve_one_by_one(defs: Seq<LayerDef>, scales: Scales, count: int, i: int)
    requires
        0 <= i < count <= defs.len(),
    ensures
        layers_of(defs, scales, count) matches Ok(layers) ==> {
            &&& layers.len() == count
            &&& layer_of(defs[i], scales) == Ok::<Layer, Fault>(layers[i])
        },
        layers_of(defs, scales, count) is Ok <==> forall|k: int|
            0 <= k < count ==> layer_of(#[trigger] defs[k], scales) is Ok,
    decreases count,
{
    if layers_of(defs, scales, count - 1) is Ok {
        lemma_as_many_layers(defs, scales, count - 1);
    }
    if count > 1 {
        layers_resolve_one_by_one(
            defs,
            scales,
            count - 1,
            if i < count - 1 {
                i
            } else {
                0
            },
        );
    } else {
        assert(layers_of(defs, scales, 0) == Ok::<Seq<Layer>, Fault>(Seq::empty()));
    }
}

/// A material stands as high as the step it names, and one that names none lies on the ground.
pub proof fn a_material_stands_as_high_as_its_step(def: MaterialDef, scales: Scales)
    ensures
        match def.elevation {
            None => height_of(def, scales) == Ok::<Micros, Fault>(0),
            Some(step) => match height_of(def, scales) {
                Ok(height) => is_filed(scales.elevation@, step@, height),
                Err(fault) => fault == Fault::Elevation(step@) && !knows(scales.elevation@, step@),
            },
        },
{
    if let Some(step) = def.elevation {
        an_entry_is_the_first_of_its_name(scales.elevation@, step@);
    }
}

/// Whether every name that a layer uses is known.
pub open spec fn names_are_known(def: LayerDef, scales: Scales) -> bool {
    let geometry = def.shape();
    &&& geometry.inset matches Some(name) ==> knows(scales.space@, name@)
    &&& geometry.radius matches Some(name) ==> knows(scales.radius@, name@)
    &&& match def {
        LayerDef::Fill { color, .. } => knows(scales.colors@, color@),
        LayerDef::Gradient { color, to, flat, .. } => knows(scales.colors@, color@) && knows(
            scales.colors@,
            to@,
        ) && (flat matches Some(name) ==> knows(scales.colors@, name@)),
        LayerDef::Sweep { color, to, flat, .. } => knows(scales.colors@, color@) && knows(
            scales.colors@,
            to@,
        ) && (flat matches Some(name) ==> knows(scales.colors@, name@)),
        LayerDef::Field { color, centres, .. } => {
            &&& knows(scales.colors@, color@)
            &&& centres@.len() <= FIELD_CENTRES
            &&& forall|k: int|
                0 <= k < centres@.len() ==> knows(scales.colors@, (#[trigger] centres@[k]).color@)
        },
        LayerDef::Glow { color, to, reach, .. } => knows(scales.colors@, color@) && (
        to matches Some(name) ==> knows(scales.colors@, name@)) && knows(scales.space@, reach@),
        LayerDef::Rim { color, .. } => knows(scales.colors@, color@),
        LayerDef::Pbr { color, emits, .. } => knows(scales.colors@, color@) && (
        emits matches Some(name) ==> knows(scales.colors@, name@)),
        LayerDef::Stroke { color, .. } => knows(scales.colors@, color@),
    }
}

/// A layer resolves exactly where every name it uses is known, and a field has no more centres than
/// there is room for.
pub proof fn a_layer_resolves_where_its_names_are_known(def: LayerDef, scales: Scales)
    requires
        scales.sane(),
    ensures
        layer_of(def, scales) is Ok <==> names_are_known(def, scales),
{
    if let Some(name) = def.shape().inset {
        an_entry_is_the_first_of_its_name(scales.space@, name@);
    }
    if let Some(name) = def.shape().radius {
        an_entry_is_the_first_of_its_name(scales.radius@, name@);
    }
    match def {
        LayerDef::Fill { color, alpha, .. } => a_tint_is_a_shade_of_what_it_names(
            scales,
            color@,
            alpha,
        ),
        LayerDef::Gradient { color, to, alpha, flat, .. } => lemma_ramp_is_known(
            scales,
            color@,
            to@,
            alpha,
            flat,
        ),
        LayerDef::Sweep { color, to, alpha, flat, .. } => lemma_ramp_is_known(
            scales,
            color@,
            to@,
            alpha,
            flat,
        ),
        LayerDef::Field { color, alpha, centres, .. } => {
            a_tint_is_a_shade_of_what_it_names(scales, color@, alpha);
            if centres@.len() <= FIELD_CENTRES {
                every_centre_is_where_it_is_written(
                    scales,
                    centres@,
                    centres@.len() as int,
                    0,
                );
            }
        },
        LayerDef::Glow { color, to, alpha, reach, .. } => {
            a_tint_is_a_shade_of_what_it_names(scales, color@, alpha);
            if let Some(name) = to {
                a_tint_is_a_shade_of_what_it_names(scales, name@, alpha);
            }
            an_entry_is_the_first_of_its_name(scales.space@, reach@);
        },
        LayerDef::Rim { color, alpha, .. } => a_tint_is_a_shade_of_what_it_names(
            scales,
            color@,
            alpha,
        ),
        LayerDef::Pbr { color, alpha, emits, .. } => {
            a_tint_is_a_shade_of_what_it_names(scales, color@, alpha);
            if let Some(name) = emits {
                a_tint_is_a_shade_of_what_it_names(scales, name@, None);
            }
        },
        LayerDef::Stroke { color, alpha, .. } => a_tint_is_a_shade_of_what_it_names(
            scales,
            color@,
            alpha,
        ),
    }
}

proof fn lemma_ramp_is_known(
    scales: Scales,
    color: Seq<char>,
    to: Seq<char>,
    alpha: Option<Micros>,
    flat: Option<String>,
)
    requires
        scales.sane(),
    ensures
        tint_of(scales, color, alpha) is Ok <==> knows(scales.colors@, color),
        tint_of(scales, to, alpha) is Ok <==> knows(scales.colors@, to),
        flat matches Some(name) ==> (tint_of(scales, name@, alpha) is Ok <==> knows(
            scales.colors@,
            name@,
        )),
{
    a_tint_is_a_shade_of_what_it_names(scales, color, alpha);
    a_tint_is_a_shade_of_what_it_names(scales, to, alpha);
    if let Some(name) = flat {
        a_tint_is_a_shade_of_what_it_names(scales, name@, alpha);
    }
}

} // verus!

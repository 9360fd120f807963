//! What text ends up sitting on: every colour that a material can present under it.
//!
//! How one colour blends over another is the renderer's to say, so that the functions here take
//! it as `over`.

use crate::material::compile::{first_lamp, strongest_flicker, LampPeak};
use crate::material::{
    scaled, Drive, FieldCentre, Layer, Material, PrimKind, Srgba, FIELD_CENTRES, RESTING_RIPPLE,
};
use crate::units::{times, Micros, Reading, MICRO};
use vstd::prelude::*;

verus! {

/// Whether `over` blends any two colours, and always blends the same two alike.
pub open spec fn blends<F: Fn(Srgba, Srgba) -> Srgba>(over: F) -> bool {
    &&& forall|a: Srgba, b: Srgba| #[trigger] call_requires(over, (a, b))
    &&& forall|a: Srgba, b: Srgba, x: Srgba, y: Srgba| #[trigger]
        call_ensures(over, (a, b), x) && #[trigger] call_ensures(over, (a, b), y) ==> x == y
}

/// What `over` makes of `top` on `under`.
pub open spec fn blended<F: Fn(Srgba, Srgba) -> Srgba>(over: F, top: Srgba, under: Srgba) -> Srgba {
    choose|result: Srgba| call_ensures(over, (top, under), result)
}

/// `colors` with `color` at its end, unless it is there already.
pub open spec fn with_color(colors: Seq<Srgba>, color: Srgba) -> Seq<Srgba> {
    if colors.contains(color) {
        colors
    } else {
        colors.push(color)
    }
}

/// `colors` with the first `count` of `more` added, each once.
pub open spec fn with_colors(colors: Seq<Srgba>, more: Seq<Srgba>, count: int) -> Seq<Srgba>
    decreases count,
{
    if count <= 0 {
        colors
    } else {
        with_color(with_colors(colors, more, count - 1), more[count - 1])
    }
}

/// What the first `count` centres make of a field's ground, where each dominates.
pub open spec fn centre_stops<F: Fn(Srgba, Srgba) -> Srgba>(layer: Layer, count: int, over: F) -> Seq<
    Srgba,
>
    decreases count,
{
    if count <= 0 {
        seq![layer.near]
    } else {
        let below = centre_stops(layer, count - 1, over);
        let centre = layer.field.centres()[count - 1];
        if centre.tint.a <= 0 {
            below
        } else {
            below.push(
                blended(over, centre.tint.times_alpha(layer.amplitude as int), layer.near),
            )
        }
    }
}

impl Layer {
    /// The colours that a layer can present inside its shape. A ramp shows both of its stops; a
    /// field shows its ground and what each of its centres makes of it; a halo is solid inside
    /// its own shape, so that its far stop never sits under text.
    pub open spec fn stops<F: Fn(Srgba, Srgba) -> Srgba>(self, over: F) -> Seq<Srgba> {
        match self.kind {
            PrimKind::Gradient => seq![self.near, self.far],
            PrimKind::Sweep => seq![self.near, self.far],
            PrimKind::Field => centre_stops(self, FIELD_CENTRES as int, over),
            _ => seq![self.near, self.near],
        }
    }

    /// Whether text can sit on the layer: a stroke, a rim and an edge band lie along the
    /// boundary rather than under a label.
    pub open spec fn is_background(self) -> bool {
        &&& self.kind != PrimKind::Stroke
        &&& self.kind != PrimKind::Rim
        &&& self.edge is None
    }

    /// The colours that this layer can present inside its shape.
    fn in_shape_stops<F: Fn(Srgba, Srgba) -> Srgba>(self, over: &F) -> (result: Vec<Srgba>)
        requires
            blends(*over),
            crate::material::wash_is_valid(self.field),
            0 <= self.amplitude <= MICRO,
        ensures
            result@ == self.stops(*over),
    {
        let mut stops: Vec<Srgba> = Vec::new();
        stops.push(self.near);
        match self.kind {
            PrimKind::Gradient => stops.push(self.far),
            PrimKind::Sweep => stops.push(self.far),
            PrimKind::Field => {
                let mut i: usize = 0;
                assert(stops@ =~= seq![self.near]);
                while i < FIELD_CENTRES
                    invariant
                        blends(*over),
                        crate::material::wash_is_valid(self.field),
                        0 <= self.amplitude <= MICRO,
                        i <= FIELD_CENTRES,
                        stops@ == centre_stops(self, i as int, *over),
                    decreases FIELD_CENTRES - i,
                {
                    let centre: FieldCentre = self.field.get(i);
                    assert(centre.tint.valid());
                    if centre.tint.a > 0 {
                        stops.push(laid(over, scaled(centre.tint, self.amplitude), self.near));
                    }
                    i = i + 1;
                }
            },
            _ => stops.push(self.near),
        }
        stops
    }
}

/// What `over` makes of `top` on `under`.
fn laid<F: Fn(Srgba, Srgba) -> Srgba>(over: &F, top: Srgba, under: Srgba) -> (result: Srgba)
    requires
        blends(*over),
    ensures
        result == blended(*over, top, under),
{
    let result: Srgba = over(top, under);
    assert(call_ensures(*over, (top, under), result));
    assert(call_ensures(*over, (top, under), blended(*over, top, under)));
    result
}

/// Whether `color` is among the colours.
fn holds(colors: &Vec<Srgba>, color: Srgba) -> (result: bool)
    ensures
        result == colors@.contains(color),
{
    let mut i: usize = 0;
    while i < colors.len()
        invariant
            i <= colors@.len(),
            forall|j: int| 0 <= j < i ==> colors@[j] != color,
        decreases colors@.len() - i,
    {
        if colors[i] == color {
            assert(colors@[i as int] == color);
            return true;
        }
        i = i + 1;
    }
    false
}

/// Add `color`, unless it is there already.
fn note(colors: &mut Vec<Srgba>, color: Srgba)
    ensures
        final(colors)@ == with_color(old(colors)@, color),
{
    if !holds(colors, color) {
        colors.push(color);
    }
}

/// `colors` with each of the first `count` stops over one colour added.
pub open spec fn over_one<F: Fn(Srgba, Srgba) -> Srgba>(
    colors: Seq<Srgba>,
    under: Srgba,
    stops: Seq<Srgba>,
    count: int,
    over: F,
) -> Seq<Srgba>
    decreases count,
{
    if count <= 0 {
        colors
    } else {
        with_color(
            over_one(colors, under, stops, count - 1, over),
            blended(over, stops[count - 1], under),
        )
    }
}

/// Every stop over each of the first `count` colours of a stack, each result once.
pub open spec fn over_all<F: Fn(Srgba, Srgba) -> Srgba>(
    stack: Seq<Srgba>,
    count: int,
    stops: Seq<Srgba>,
    over: F,
) -> Seq<Srgba>
    decreases count,
{
    if count <= 0 {
        Seq::empty()
    } else {
        over_one(
            over_all(stack, count - 1, stops, over),
            stack[count - 1],
            stops,
            stops.len() as int,
            over,
        )
    }
}

/// The colours that the first `count` layers can present on `base` while they are at `drive`.
pub open spec fn stack_of<F: Fn(Srgba, Srgba) -> Srgba>(
    layers: Seq<Layer>,
    count: int,
    base: Srgba,
    drive: Drive,
    over: F,
) -> Seq<Srgba>
    decreases count,
{
    if count <= 0 {
        seq![base]
    } else {
        let below = stack_of(layers, count - 1, base, drive, over);
        let layer = layers[count - 1];
        if layer.is_background() {
            over_all(below, below.len() as int, layer.at_drive(drive).stops(over), over)
        } else {
            below
        }
    }
}

/// Whether any of the layers answers to the drive's intensity.
pub open spec fn anything_swells(layers: Seq<Layer>) -> bool {
    exists|i: int| 0 <= i < layers.len() && (#[trigger] layers[i]).answers_drive()
}

/// As loud as a drive gets.
pub open spec fn full_drive() -> Drive {
    Drive { intensity: 1_000_000, phase: 0, ripple: RESTING_RIPPLE }
}

/// Every colour that text can sit on: those at rest, and then those at full drive where
/// anything swells. In between lies no louder moment.
pub open spec fn composites_of<F: Fn(Srgba, Srgba) -> Srgba>(
    layers: Seq<Layer>,
    base: Srgba,
    over: F,
) -> Seq<Srgba> {
    let n = layers.len() as int;
    let quiet = stack_of(layers, n, base, Drive::resting(), over);
    let resting = with_colors(Seq::empty(), quiet, quiet.len() as int);
    if anything_swells(layers) {
        let loud = stack_of(layers, n, base, full_drive(), over);
        with_colors(resting, loud, loud.len() as int)
    } else {
        resting
    }
}

impl Material {
    /// Every colour that text can end up sitting on, when this material is painted over `base`:
    /// each way through the stops of its layers, blended in paint order, each result once.
    pub fn composites<F: Fn(Srgba, Srgba) -> Srgba>(&self, base: Srgba, over: F) -> (result: Vec<
        Srgba,
    >)
        requires
            self.sane(),
            blends(over),
        ensures
            result@ == composites_of(self.layers@, base, over),
            result@.len() > 0,
            result@.no_duplicates(),
    {
        proof {
            text_sits_on_something(self.layers@, base, over);
        }
        let mut results: Vec<Srgba> = Vec::new();
        let quiet: Vec<Srgba> = self.stack(base, Drive::rest(), &over);
        note_all(&mut results, &quiet);
        if self.swells() {
            let drive: Drive = Drive::new(MICRO, Reading::Finite(0), RESTING_RIPPLE);
            let loud: Vec<Srgba> = self.stack(base, drive, &over);
            note_all(&mut results, &loud);
        }
        results
    }

    /// What `lift` makes of each of the composites when this material is lit at its peak.
    pub fn lit_composites<F: Fn(Srgba, Srgba) -> Srgba, G: Fn(Srgba, LampPeak) -> Srgba>(
        &self,
        base: Srgba,
        over: F,
        lift: G,
    ) -> (result: Vec<Srgba>)
        requires
            self.sane(),
            blends(over),
            forall|c: Srgba, p: LampPeak| #[trigger] call_requires(lift, (c, p)),
        ensures
            result@.len() == composites_of(self.layers@, base, over).len(),
            forall|i: int|
                0 <= i < result@.len() ==> #[trigger] lifted(
                    lift,
                    composites_of(self.layers@, base, over)[i],
                    self.layers@,
                    result@[i],
                ),
    {
        let peak: LampPeak = self.emission_peak();
        let unlit: Vec<Srgba> = self.composites(base, over);
        let mut out: Vec<Srgba> = Vec::new();
        let mut i: usize = 0;
        while i < unlit.len()
            invariant
                i <= unlit@.len(),
                out@.len() == i,
                peak_of(self.layers@) == peak,
                forall|c: Srgba, p: LampPeak| #[trigger] call_requires(lift, (c, p)),
                forall|j: int|
                    0 <= j < i ==> #[trigger] lifted(lift, unlit@[j], self.layers@, out@[j]),
            decreases unlit@.len() - i,
        {
            let color: Srgba = lift(unlit[i], peak);
            out.push(color);
            assert(lifted(lift, unlit@[i as int], self.layers@, out@[i as int]));
            i = i + 1;
        }
        out
    }

    /// Whether anything on this material answers to the drive's intensity.
    fn swells(&self) -> (result: bool)
        ensures
            result == anything_swells(self.layers@),
    {
        let mut i: usize = 0;
        while i < self.layers.len()
            invariant
                i <= self.layers@.len(),
                forall|j: int| 0 <= j < i ==> !(#[trigger] self.layers@[j]).answers_drive(),
            decreases self.layers@.len() - i,
        {
            if self.layers[i].swells() {
                assert(self.layers@[i as int].answers_drive());
                return true;
            }
            i = i + 1;
        }
        false
    }

    /// The colours that this material can present on `base` while it is at `drive`.
    fn stack<F: Fn(Srgba, Srgba) -> Srgba>(&self, base: Srgba, drive: Drive, over: &F) -> (result:
        Vec<Srgba>)
        requires
            self.sane(),
            drive.sane(),
            blends(*over),
        ensures
            result@ == stack_of(self.layers@, self.layers@.len() as int, base, drive, *over),
    {
        let mut stack: Vec<Srgba> = Vec::new();
        stack.push(base);
        let mut i: usize = 0;
        assert(stack@ =~= seq![base]);
        while i < self.layers.len()
            invariant
                self.sane(),
                drive.sane(),
                blends(*over),
                i <= self.layers@.len(),
                stack@ == stack_of(self.layers@, i as int, base, drive, *over),
            decreases self.layers@.len() - i,
        {
            let layer: Layer = self.layers[i];
            assert(layer.sane());
            let along_the_edge: bool = match layer.kind {
                PrimKind::Stroke => true,
                PrimKind::Rim => true,
                _ => layer.edge.is_some(),
            };
            if !along_the_edge {
                let stops: Vec<Srgba> = layer.driven(drive).in_shape_stops(over);
                stack = lay_all(&stack, &stops, over);
            }
            i = i + 1;
        }
        stack
    }
}

/// The most that a material's lamp adds to its ground.
pub open spec fn peak_of(layers: Seq<Layer>) -> LampPeak {
    match first_lamp(layers) {
        None => LampPeak { color: Srgba::clear(), strength: 0 },
        Some(lamp) => LampPeak {
            color: lamp.near,
            strength: times(
                times(lamp.emission as int, Material::LAMP_PEAK as int),
                1_000_000 + strongest_flicker(layers),
            ) as Micros,
        },
    }
}

/// Whether `result` is what `lift` makes of `color` at the peak of the layers' lamp.
pub open spec fn lifted<G: Fn(Srgba, LampPeak) -> Srgba>(
    lift: G,
    color: Srgba,
    layers: Seq<Layer>,
    result: Srgba,
) -> bool {
    call_ensures(lift, (color, peak_of(layers)), result)
}

/// Add each colour of `more`, unless it is there already.
fn note_all(colors: &mut Vec<Srgba>, more: &Vec<Srgba>)
    ensures
        final(colors)@ == with_colors(old(colors)@, more@, more@.len() as int),
{
    let mut i: usize = 0;
    while i < more.len()
        invariant
            i <= more@.len(),
            colors@ == with_colors(old(colors)@, more@, i as int),
        decreases more@.len() - i,
    {
        note(colors, more[i]);
        i = i + 1;
    }
}

/// Every stop over each colour of a stack, each result once.
fn lay_all<F: Fn(Srgba, Srgba) -> Srgba>(stack: &Vec<Srgba>, stops: &Vec<Srgba>, over: &F) -> (result:
    Vec<Srgba>)
    requires
        blends(*over),
    ensures
        result@ == over_all(stack@, stack@.len() as int, stops@, *over),
{
    let mut next: Vec<Srgba> = Vec::new();
    let mut i: usize = 0;
    while i < stack.len()
        invariant
            blends(*over),
            i <= stack@.len(),
            next@ == over_all(stack@, i as int, stops@, *over),
        decreases stack@.len() - i,
    {
        let under: Srgba = stack[i];
        let ghost before = next@;
        let mut j: usize = 0;
        while j < stops.len()
            invariant
                blends(*over),
                j <= stops@.len(),
                next@ == over_one(before, under, stops@, j as int, *over),
            decreases stops@.len() - j,
        {
            note(&mut next, laid(over, stops[j], under));
            j = j + 1;
        }
        i = i + 1;
    }
    next
}

/// Those of the first `count` layers that text can sit on.
pub open spec fn backgrounds(layers: Seq<Layer>, count: int) -> Seq<Layer>
    decreases count,
{
    if count <= 0 {
        Seq::empty()
    } else if layers[count - 1].is_background() {
        backgrounds(layers, count - 1).push(layers[count - 1])
    } else {
        backgrounds(layers, count - 1)
    }
}

/// There is always a colour that text sits on, and none is there twice.
pub proof fn text_sits_on_something<F: Fn(Srgba, Srgba) -> Srgba>(
    layers: Seq<Layer>,
    base: Srgba,
    over: F,
)
    ensures
        composites_of(layers, base, over).len() > 0,
        composites_of(layers, base, over).no_duplicates(),
{
    let n = layers.len() as int;
    let quiet = stack_of(layers, n, base, Drive::resting(), over);
    let loud = stack_of(layers, n, base, full_drive(), over);
    lemma_stacks_are_not_empty(layers, n, base, Drive::resting(), over);
    lemma_colours_are_noted_once(Seq::empty(), quiet, quiet.len() as int);
    let resting = with_colors(Seq::empty(), quiet, quiet.len() as int);
    lemma_colours_are_noted_once(resting, loud, loud.len() as int);
}

proof fn lemma_colours_are_noted_once(colors: Seq<Srgba>, more: Seq<Srgba>, count: int)
    requires
        colors.no_duplicates(),
        0 <= count <= more.len(),
    ensures
        with_colors(colors, more, count).no_duplicates(),
        with_colors(colors, more, count).len() >= colors.len(),
        forall|c: Srgba| colors.contains(c) ==> #[trigger] with_colors(
            colors,
            more,
            count,
        ).contains(c),
        forall|i: int|
            0 <= i < count ==> with_colors(colors, more, count).contains(#[trigger] more[i]),
        count > 0 ==> with_colors(colors, more, count).len() > 0,
    decreases count,
{
    if count > 0 {
        lemma_colours_are_noted_once(colors, more, count - 1);
        let before = with_colors(colors, more, count - 1);
        let color = more[count - 1];
        let now = with_colors(colors, more, count);
        if before.contains(color) {
            let k = choose|k: int| 0 <= k < before.len() && before[k] == color;
            assert(before.len() > k);
        } else {
            assert(now == before.push(color));
            assert(now[before.len() as int] == color);
            assert forall|c: Srgba| before.contains(c) implies #[trigger] now.contains(c) by {
                let k = choose|k: int| 0 <= k < before.len() && before[k] == c;
                assert(now[k] == c);
            }
        }
        assert forall|i: int| 0 <= i < count implies now.contains(#[trigger] more[i]) by {
            if i < count - 1 {
                assert(before.contains(more[i]));
            }
        }
    }
}

proof fn lemma_known_colours_add_nothing(colors: Seq<Srgba>, more: Seq<Srgba>, count: int)
    requires
        0 <= count <= more.len(),
        forall|i: int| 0 <= i < more.len() ==> colors.contains(#[trigger] more[i]),
    ensures
        with_colors(colors, more, count) == colors,
    decreases count,
{
    if count > 0 {
        lemma_known_colours_add_nothing(colors, more, count - 1);
        assert(colors.contains(more[count - 1]));
    }
}

/// Only what text can sit on makes a difference: two materials whose backgrounds are the same
/// present the same colours, whatever strokes, rims and edge bands are among their layers. With
/// none but those, text sits on the ground alone.
pub proof fn edges_are_no_background<F: Fn(Srgba, Srgba) -> Srgba>(
    a: Seq<Layer>,
    b: Seq<Layer>,
    base: Srgba,
    over: F,
)
    requires
        backgrounds(a, a.len() as int) == backgrounds(b, b.len() as int),
    ensures
        composites_of(a, base, over) == composites_of(b, base, over),
        composites_of(a, base, over) == composites_of(
            backgrounds(a, a.len() as int),
            base,
            over,
        ),
        backgrounds(a, a.len() as int).len() == 0 ==> composites_of(a, base, over) == seq![base],
{
    lemma_edges_can_go(a, base, over);
    lemma_edges_can_go(b, base, over);
    let left = backgrounds(a, a.len() as int);
    if left.len() == 0 {
        let quiet = stack_of(left, 0, base, Drive::resting(), over);
        assert(quiet =~= seq![base]);
        let none = Seq::<Srgba>::empty();
        assert(with_colors(none, quiet, 0) == none);
        assert(!none.contains(base));
        assert(with_colors(none, quiet, 1) =~= seq![base]);
        assert(!anything_swells(left));
    }
}

proof fn lemma_edges_can_go<F: Fn(Srgba, Srgba) -> Srgba>(
    layers: Seq<Layer>,
    base: Srgba,
    over: F,
)
    ensures
        composites_of(layers, base, over) == composites_of(
            backgrounds(layers, layers.len() as int),
            base,
            over,
        ),
{
    let n = layers.len() as int;
    let left = backgrounds(layers, n);
    lemma_stack_of_backgrounds(layers, n, base, Drive::resting(), over);
    lemma_stack_of_backgrounds(layers, n, base, full_drive(), over);
    lemma_backgrounds_are_layers(layers, n);
    let quiet = stack_of(layers, n, base, Drive::resting(), over);
    let resting = with_colors(Seq::empty(), quiet, quiet.len() as int);
    if anything_swells(left) {
        let i = choose|i: int| 0 <= i < left.len() && (#[trigger] left[i]).answers_drive();
        assert(layers.contains(left[i]));
        let j = choose|j: int| 0 <= j < layers.len() && layers[j] == left[i];
        assert(layers[j].answers_drive());
    } else if anything_swells(layers) {
        let loud = stack_of(layers, n, base, full_drive(), over);
        lemma_still_layers_sound_alike(left, left.len() as int, base, over);
        assert(loud == quiet);
        lemma_colours_are_noted_once(Seq::empty(), quiet, quiet.len() as int);
        lemma_known_colours_add_nothing(resting, loud, loud.len() as int);
    }
}

proof fn lemma_backgrounds_are_layers(layers: Seq<Layer>, count: int)
    requires
        count <= layers.len(),
    ensures
        forall|i: int|
            0 <= i < backgrounds(layers, count).len() ==> layers.contains(
                #[trigger] backgrounds(layers, count)[i],
            ),
    decreases count,
{
    if count > 0 {
        lemma_backgrounds_are_layers(layers, count - 1);
        let before = backgrounds(layers, count - 1);
        let now = backgrounds(layers, count);
        assert(layers.contains(layers[count - 1]));
        assert forall|i: int| 0 <= i < now.len() implies layers.contains(#[trigger] now[i]) by {
            if i < before.len() {
                assert(now[i] == before[i]);
            }
        }
    }
}

proof fn lemma_stack_of_backgrounds<F: Fn(Srgba, Srgba) -> Srgba>(
    layers: Seq<Layer>,
    count: int,
    base: Srgba,
    drive: Drive,
    over: F,
)
    requires
        count <= layers.len(),
    ensures
        stack_of(
            backgrounds(layers, count),
            backgrounds(layers, count).len() as int,
            base,
            drive,
            over,
        ) == stack_of(layers, count, base, drive, over),
    decreases count,
{
    if count > 0 {
        lemma_stack_of_backgrounds(layers, count - 1, base, drive, over);
        let before = backgrounds(layers, count - 1);
        let layer = layers[count - 1];
        if layer.is_background() {
            lemma_layers_above_do_not_matter(
                before,
                layer,
                before.len() as int,
                base,
                drive,
                over,
            );
            assert(before.push(layer)[before.len() as int] == layer);
        }
    }
}

proof fn lemma_still_layers_sound_alike<F: Fn(Srgba, Srgba) -> Srgba>(
    layers: Seq<Layer>,
    count: int,
    base: Srgba,
    over: F,
)
    requires
        count <= layers.len(),
        !anything_swells(layers),
    ensures
        stack_of(layers, count, base, full_drive(), over) == stack_of(
            layers,
            count,
            base,
            Drive::resting(),
            over,
        ),
    decreases count,
{
    if count > 0 {
        lemma_still_layers_sound_alike(layers, count - 1, base, over);
        assert(!layers[count - 1].answers_drive());
        let x = layers[count - 1].at_drive(full_drive());
        let y = layers[count - 1].at_drive(Drive::resting());
        lemma_centres_see_only_colours(x, y, FIELD_CENTRES as int, over);
    }
}

/// Whether two stacks of layers differ in how far each of them turns, and in nothing else.
pub open spec fn same_but_turning(a: Seq<Layer>, b: Seq<Layer>) -> bool {
    &&& a.len() == b.len()
    &&& forall|i: int|
        0 <= i < a.len() ==> (#[trigger] b[i]) == (Layer { phase: b[i].phase, ..a[i] })
}

/// How far a layer turns changes no colour that text can sit on.
pub proof fn turning_changes_no_composite<F: Fn(Srgba, Srgba) -> Srgba>(
    a: Seq<Layer>,
    b: Seq<Layer>,
    base: Srgba,
    over: F,
)
    requires
        same_but_turning(a, b),
    ensures
        composites_of(a, base, over) == composites_of(b, base, over),
{
    let n = a.len() as int;
    lemma_turned_stacks(a, b, n, base, Drive::resting(), over);
    lemma_turned_stacks(a, b, n, base, full_drive(), over);
    if anything_swells(a) {
        let i = choose|i: int| 0 <= i < a.len() && (#[trigger] a[i]).answers_drive();
        assert(b[i].answers_drive());
    }
    if anything_swells(b) {
        let i = choose|i: int| 0 <= i < b.len() && (#[trigger] b[i]).answers_drive();
        assert(a[i].answers_drive());
    }
}

proof fn lemma_turned_stacks<F: Fn(Srgba, Srgba) -> Srgba>(
    a: Seq<Layer>,
    b: Seq<Layer>,
    count: int,
    base: Srgba,
    drive: Drive,
    over: F,
)
    requires
        same_but_turning(a, b),
        count <= a.len(),
    ensures
        stack_of(a, count, base, drive, over) == stack_of(b, count, base, drive, over),
    decreases count,
{
    if count > 0 {
        lemma_turned_stacks(a, b, count - 1, base, drive, over);
        assert(b[count - 1] == (Layer { phase: b[count - 1].phase, ..a[count - 1] }));
        let x = a[count - 1].at_drive(drive);
        let y = b[count - 1].at_drive(drive);
        assert(x.near == y.near && x.far == y.far && x.field == y.field && x.amplitude
            == y.amplitude && x.kind == y.kind);
        lemma_centres_see_only_colours(x, y, FIELD_CENTRES as int, over);
    }
}

proof fn lemma_layers_above_do_not_matter<F: Fn(Srgba, Srgba) -> Srgba>(
    layers: Seq<Layer>,
    top: Layer,
    count: int,
    base: Srgba,
    drive: Drive,
    over: F,
)
    requires
        count <= layers.len(),
    ensures
        stack_of(layers.push(top), count, base, drive, over) == stack_of(
            layers,
            count,
            base,
            drive,
            over,
        ),
    decreases count,
{
    if count > 0 {
        lemma_layers_above_do_not_matter(layers, top, count - 1, base, drive, over);
        assert(layers.push(top)[count - 1] == layers[count - 1]);
    }
}

/// The phase changes no colour that text is checked against: it moves where a ramp's stops land.
pub proof fn a_phase_cannot_change_a_colour_the_gate_checks<F: Fn(Srgba, Srgba) -> Srgba>(
    layers: Seq<Layer>,
    count: int,
    base: Srgba,
    a: Drive,
    b: Drive,
    over: F,
)
    requires
        a.intensity == b.intensity,
        count <= layers.len(),
    ensures
        stack_of(layers, count, base, a, over) == stack_of(layers, count, base, b, over),
    decreases count,
{
    if count > 0 {
        a_phase_cannot_change_a_colour_the_gate_checks(layers, count - 1, base, a, b, over);
        let x = layers[count - 1].at_drive(a);
        let y = layers[count - 1].at_drive(b);
        assert(x.near == y.near && x.far == y.far && x.field == y.field && x.amplitude
            == y.amplitude && x.kind == y.kind);
        lemma_centres_see_only_colours(x, y, FIELD_CENTRES as int, over);
    }
}

proof fn lemma_centres_see_only_colours<F: Fn(Srgba, Srgba) -> Srgba>(
    x: Layer,
    y: Layer,
    count: int,
    over: F,
)
    requires
        x.near == y.near,
        x.field == y.field,
        x.amplitude == y.amplitude,
    ensures
        centre_stops(x, count, over) == centre_stops(y, count, over),
    decreases count,
{
    if count > 0 {
        lemma_centres_see_only_colours(x, y, count - 1, over);
    }
}

/// An opaque fill hides what is painted below it: text on it sits on the fill alone.
pub proof fn an_opaque_fill_hides_what_is_below<F: Fn(Srgba, Srgba) -> Srgba>(
    layers: Seq<Layer>,
    fill: Layer,
    base: Srgba,
    drive: Drive,
    over: F,
)
    requires
        fill.kind == PrimKind::Rect,
        fill.is_background(),
        forall|under: Srgba| #[trigger]
            blended(over, fill.at_drive(drive).near, under) == fill.at_drive(drive).near,
    ensures
        stack_of(layers.push(fill), layers.len() as int + 1, base, drive, over) == seq![
            fill.at_drive(drive).near,
        ],
{
    let n = layers.len() as int;
    let below = stack_of(layers.push(fill), n, base, drive, over);
    lemma_stacks_are_not_empty(layers.push(fill), n, base, drive, over);
    let near = fill.at_drive(drive).near;
    let stops = seq![near, near];
    assert(fill.at_drive(drive).stops(over) =~= stops);
    lemma_one_colour_over_all(below, below.len() as int, stops, near, over);
}

proof fn lemma_one_colour_over_all<F: Fn(Srgba, Srgba) -> Srgba>(
    stack: Seq<Srgba>,
    count: int,
    stops: Seq<Srgba>,
    near: Srgba,
    over: F,
)
    requires
        0 < count <= stack.len(),
        stops == seq![near, near],
        forall|under: Srgba| #[trigger] blended(over, near, under) == near,
    ensures
        over_all(stack, count, stops, over) == seq![near],
    decreases count,
{
    let before = over_all(stack, count - 1, stops, over);
    if count > 1 {
        lemma_one_colour_over_all(stack, count - 1, stops, near, over);
    }
    let under = stack[count - 1];
    assert(blended(over, near, under) == near);
    let none = over_one(before, under, stops, 0, over);
    let one = over_one(before, under, stops, 1, over);
    let two = over_one(before, under, stops, 2, over);
    assert(stops[0] == near && stops[1] == near);
    assert(one == with_color(before, near));
    assert(two == with_color(one, near));
    if count > 1 {
        assert(seq![near].contains(near)) by {
            assert(seq![near][0] == near);
        }
    } else {
        assert(!before.contains(near));
        assert(one =~= seq![near]);
        assert(one[0] == near);
    }
}

proof fn lemma_stacks_are_not_empty<F: Fn(Srgba, Srgba) -> Srgba>(
    layers: Seq<Layer>,
    count: int,
    base: Srgba,
    drive: Drive,
    over: F,
)
    ensures
        stack_of(layers, count, base, drive, over).len() > 0,
    decreases count,
{
    if count > 0 {
        lemma_stacks_are_not_empty(layers, count - 1, base, drive, over);
        let below = stack_of(layers, count - 1, base, drive, over);
        let layer = layers[count - 1];
        if layer.is_background() {
            let stops = layer.at_drive(drive).stops(over);
            lemma_centres_are_not_empty(layer.at_drive(drive), FIELD_CENTRES as int, over);
            lemma_over_all_is_not_empty(below, below.len() as int, stops, over);
        }
    }
}

proof fn lemma_centres_are_not_empty<F: Fn(Srgba, Srgba) -> Srgba>(layer: Layer, count: int, over: F)
    ensures
        centre_stops(layer, count, over).len() > 0,
    decreases count,
{
    if count > 0 {
        lemma_centres_are_not_empty(layer, count - 1, over);
    }
}

proof fn lemma_over_all_is_not_empty<F: Fn(Srgba, Srgba) -> Srgba>(
    stack: Seq<Srgba>,
    count: int,
    stops: Seq<Srgba>,
    over: F,
)
    requires
        count > 0,
        stops.len() > 0,
    ensures
        over_all(stack, count, stops, over).len() > 0,
{
    let before = over_all(stack, count - 1, stops, over);
    lemma_over_one_is_not_empty(before, stack[count - 1], stops, stops.len() as int, over);
}

proof fn lemma_over_one_is_not_empty<F: Fn(Srgba, Srgba) -> Srgba>(
    colors: Seq<Srgba>,
    under: Srgba,
    stops: Seq<Srgba>,
    count: int,
    over: F,
)
    requires
        count > 0,
    ensures
        over_one(colors, under, stops, count, over).len() > 0,
{
    let before = over_one(colors, under, stops, count - 1, over);
    let color = blended(over, stops[count - 1], under);
    if before.contains(color) {
        let i = choose|i: int| 0 <= i < before.len() && before[i] == color;
        assert(before.len() > i);
    }
}

/// Adding colours keeps those there are and adds each that is not there.
proof fn lemma_with_colors(colors: Seq<Srgba>, more: Seq<Srgba>, count: int, color: Srgba)
    requires
        0 <= count <= more.len(),
    ensures
        with_colors(colors, more, count).contains(color) <==> colors.contains(color) || more.take(
            count,
        ).contains(color),
    decreases count,
{
    if count > 0 {
        lemma_with_colors(colors, more, count - 1, color);
        let before = with_colors(colors, more, count - 1);
        lemma_with_color(before, more[count - 1], color);
        assert(more.take(count) =~= more.take(count - 1).push(more[count - 1]));
        lemma_pushed(more.take(count - 1), more[count - 1], color);
    } else {
        assert(more.take(count).len() == 0);
    }
}

proof fn lemma_pushed(colors: Seq<Srgba>, one: Srgba, color: Srgba)
    ensures
        colors.push(one).contains(color) <==> colors.contains(color) || color == one,
{
    let all = colors.push(one);
    assert(all[colors.len() as int] == one);
    if colors.contains(color) {
        let i = choose|i: int| 0 <= i < colors.len() && colors[i] == color;
        assert(all[i] == color);
    }
    if all.contains(color) && color != one {
        let i = choose|i: int| 0 <= i < all.len() && all[i] == color;
        assert(colors[i] == color);
    }
}

proof fn lemma_with_color(colors: Seq<Srgba>, one: Srgba, color: Srgba)
    ensures
        with_color(colors, one).contains(color) <==> colors.contains(color) || color == one,
{
    lemma_pushed(colors, one, color);
}

proof fn lemma_over_one<F: Fn(Srgba, Srgba) -> Srgba>(
    colors: Seq<Srgba>,
    under: Srgba,
    stops: Seq<Srgba>,
    count: int,
    over: F,
    color: Srgba,
)
    requires
        0 <= count <= stops.len(),
    ensures
        over_one(colors, under, stops, count, over).contains(color) <==> colors.contains(color) || (
        exists|j: int| 0 <= j < count && color == blended(over, #[trigger] stops[j], under)),
    decreases count,
{
    if count > 0 {
        lemma_over_one(colors, under, stops, count - 1, over, color);
        lemma_with_color(
            over_one(colors, under, stops, count - 1, over),
            blended(over, stops[count - 1], under),
            color,
        );
        if color == blended(over, stops[count - 1], under) {
            assert(0 <= count - 1 < count);
        }
    }
}

/// A layer is laid over everything that is below it: what then can lie under the text is each of its
/// stops over each colour that could lie there before, and nothing else.
pub proof fn a_layer_lies_over_all_that_is_below<F: Fn(Srgba, Srgba) -> Srgba>(
    below: Seq<Srgba>,
    count: int,
    stops: Seq<Srgba>,
    over: F,
    color: Srgba,
)
    requires
        0 <= count <= below.len(),
    ensures
        over_all(below, count, stops, over).contains(color) <==> exists|i: int, j: int|
            0 <= i < count && 0 <= j < stops.len() && color == blended(
                over,
                #[trigger] stops[j],
                #[trigger] below[i],
            ),
    decreases count,
{
    if count > 0 {
        a_layer_lies_over_all_that_is_below(below, count - 1, stops, over, color);
        lemma_over_one(
            over_all(below, count - 1, stops, over),
            below[count - 1],
            stops,
            stops.len() as int,
            over,
            color,
        );
        if over_all(below, count, stops, over).contains(color) {
            if !over_all(below, count - 1, stops, over).contains(color) {
                let j = choose|j: int|
                    0 <= j < stops.len() && color == blended(over, #[trigger] stops[j], below[count
                        - 1]);
                assert(0 <= count - 1 < count && color == blended(over, stops[j], below[count - 1]));
            }
        }
        if exists|i: int, j: int|
            0 <= i < count && 0 <= j < stops.len() && color == blended(
                over,
                #[trigger] stops[j],
                #[trigger] below[i],
            ) {
            let (i, j) = choose|i: int, j: int|
                0 <= i < count && 0 <= j < stops.len() && color == blended(
                    over,
                    #[trigger] stops[j],
                    #[trigger] below[i],
                );
            if i < count - 1 {
                assert(0 <= i < count - 1 && color == blended(over, stops[j], below[i]));
            }
        }
    } else {
        assert(over_all(below, count, stops, over).len() == 0);
    }
}

/// The layers of a material are laid over each other in their order, each in the colours that the drive
/// gives it. An outline, a rim and what stands on one edge only lie under no text.
pub proof fn backgrounds_are_laid_over_each_other<F: Fn(Srgba, Srgba) -> Srgba>(
    layers: Seq<Layer>,
    count: int,
    base: Srgba,
    drive: Drive,
    over: F,
    color: Srgba,
)
    requires
        0 <= count < layers.len(),
    ensures
        stack_of(layers, 0, base, drive, over) == seq![base],
        ({
            let below = stack_of(layers, count, base, drive, over);
            let above = stack_of(layers, count + 1, base, drive, over);
            let layer = layers[count];
            let stops = layer.at_drive(drive).stops(over);
            if layer.kind == PrimKind::Stroke || layer.kind == PrimKind::Rim || layer.edge is Some {
                above == below
            } else {
                above.contains(color) <==> exists|i: int, j: int|
                    0 <= i < below.len() && 0 <= j < stops.len() && color == blended(
                        over,
                        #[trigger] stops[j],
                        #[trigger] below[i],
                    )
            }
        }),
{
    let below = stack_of(layers, count, base, drive, over);
    a_layer_lies_over_all_that_is_below(
        below,
        below.len() as int,
        layers[count].at_drive(drive).stops(over),
        over,
        color,
    );
}

/// A layer of one colour shows that colour, one that runs from a colour to another shows both, and a
/// field shows its ground and every centre that is lit over that ground.
pub proof fn a_layer_shows_its_own_colours<F: Fn(Srgba, Srgba) -> Srgba>(
    layer: Layer,
    over: F,
    color: Srgba,
)
    ensures
        layer.stops(over).contains(layer.near),
        layer.kind == PrimKind::Gradient || layer.kind == PrimKind::Sweep ==> (layer.stops(
            over,
        ).contains(color) <==> color == layer.near || color == layer.far),
        layer.kind == PrimKind::Field ==> (layer.stops(over).contains(color) <==> color == layer.near
            || exists|i: int|
            0 <= i < FIELD_CENTRES && (#[trigger] layer.field.centres()[i]).tint.a > 0 && color
                == blended(
                over,
                layer.field.centres()[i].tint.times_alpha(layer.amplitude as int),
                layer.near,
            )),
        layer.kind != PrimKind::Gradient && layer.kind != PrimKind::Sweep && layer.kind
            != PrimKind::Field ==> (layer.stops(over).contains(color) <==> color == layer.near),
{
    let stops = layer.stops(over);
    if layer.kind == PrimKind::Field {
        lemma_centre_stops(layer, FIELD_CENTRES as int, over, layer.near);
        lemma_centre_stops(layer, FIELD_CENTRES as int, over, color);
    } else {
        assert(stops.len() == 2);
        assert(stops[0] == layer.near);
        if layer.kind == PrimKind::Gradient || layer.kind == PrimKind::Sweep {
            assert(stops[1] == layer.far);
        } else {
            assert(stops[1] == layer.near);
        }
        if stops.contains(color) {
            let i = choose|i: int| 0 <= i < stops.len() && stops[i] == color;
            assert(i == 0 || i == 1);
        }
    }
}

proof fn lemma_centre_stops<F: Fn(Srgba, Srgba) -> Srgba>(
    layer: Layer,
    count: int,
    over: F,
    color: Srgba,
)
    requires
        0 <= count <= FIELD_CENTRES,
    ensures
        centre_stops(layer, count, over).contains(color) <==> color == layer.near || exists|i: int|
            0 <= i < count && (#[trigger] layer.field.centres()[i]).tint.a > 0 && color == blended(
                over,
                layer.field.centres()[i].tint.times_alpha(layer.amplitude as int),
                layer.near,
            ),
    decreases count,
{
    if count > 0 {
        lemma_centre_stops(layer, count - 1, over, color);
        let centre = layer.field.centres()[count - 1];
        lemma_pushed(
            centre_stops(layer, count - 1, over),
            blended(over, centre.tint.times_alpha(layer.amplitude as int), layer.near),
            color,
        );
    } else {
        let only = seq![layer.near];
        assert(only[0] == layer.near);
        if only.contains(color) {
            let i = choose|i: int| 0 <= i < only.len() && only[i] == color;
            assert(i == 0);
        }
    }
}

/// What can lie under a text is what lies there at rest and, where anything answers the drive, what
/// lies there at full drive.
pub proof fn text_lies_on_rest_and_full_drive<F: Fn(Srgba, Srgba) -> Srgba>(
    layers: Seq<Layer>,
    base: Srgba,
    over: F,
    color: Srgba,
)
    ensures
        composites_of(layers, base, over).contains(color) <==> {
            ||| stack_of(layers, layers.len() as int, base, Drive::resting(), over).contains(color)
            ||| {
                &&& exists|i: int| 0 <= i < layers.len() && (#[trigger] layers[i]).answers_drive()
                &&& exists|drive: Drive|
                    drive.intensity == 1_000_000 && (#[trigger] stack_of(
                        layers,
                        layers.len() as int,
                        base,
                        drive,
                        over,
                    )).contains(color)
            }
        },
{
    let n = layers.len() as int;
    let quiet = stack_of(layers, n, base, Drive::resting(), over);
    let loud = stack_of(layers, n, base, full_drive(), over);
    let resting = with_colors(Seq::empty(), quiet, quiet.len() as int);
    lemma_with_colors(Seq::empty(), quiet, quiet.len() as int, color);
    lemma_with_colors(resting, loud, loud.len() as int, color);
    assert(quiet.take(quiet.len() as int) =~= quiet);
    assert(loud.take(loud.len() as int) =~= loud);
    assert(full_drive().intensity == 1_000_000);
    assert forall|drive: Drive| drive.intensity == 1_000_000 implies #[trigger] stack_of(
        layers,
        n,
        base,
        drive,
        over,
    ) == loud by {
        a_phase_cannot_change_a_colour_the_gate_checks(layers, n, base, drive, full_drive(), over);
    }
}

/// The peak that a material's lamp can reach has the lamp's colour. It is the light the lamp gives
/// times the most that a lamp is driven to, and as much more as anything in the material flickers.
pub proof fn the_peak_is_that_of_the_lamp(layers: Seq<Layer>)
    requires
        first_lamp(layers) matches Some(lamp) ==> lamp.emission <= 1_000_000_000_000,
        0 <= strongest_flicker(layers) <= 1_000_000_000_000,
    ensures
        match first_lamp(layers) {
            None => peak_of(layers).strength == 0 && peak_of(layers).color.a == 0,
            Some(lamp) => lamp.emission > 0 ==> {
                let most = lamp.emission * Material::LAMP_PEAK;
                let flicker = 1_000_000 + strongest_flicker(layers);
                &&& peak_of(layers).color == lamp.near
                &&& peak_of(layers).strength * 1_000_000_000_000 <= most * flicker
                &&& most * flicker < (peak_of(layers).strength + 1) * 1_000_000_000_000 + flicker
                    * 1_000_000
            },
        },
{
    if let Some(lamp) = first_lamp(layers) {
        if lamp.emission > 0 {
            let most = lamp.emission * Material::LAMP_PEAK;
            let flicker = 1_000_000 + strongest_flicker(layers);
            let lit = times(lamp.emission as int, Material::LAMP_PEAK as int);
            let strength = times(lit, flicker);
            assert(0 <= lit <= 2_000_000_000_000);
            assert(0 <= lit * flicker <= 2_000_000_000_000 * 2_000_000_000_000) by (nonlinear_arith)
                requires
                    0 <= lit <= 2_000_000_000_000,
                    0 <= flicker <= 2_000_000_000_000,
            ;
            assert(lit * 1_000_000 * flicker <= most * flicker < (lit * 1_000_000 + 1_000_000)
                * flicker) by (nonlinear_arith)
                requires
                    lit * 1_000_000 <= most < lit * 1_000_000 + 1_000_000,
                    flicker > 0,
            ;
            assert(lit * 1_000_000 * flicker == lit * flicker * 1_000_000) by (nonlinear_arith);
            assert((lit * 1_000_000 + 1_000_000) * flicker == lit * flicker * 1_000_000 + flicker
                * 1_000_000) by (nonlinear_arith);
        }
    }
}

} // verus!

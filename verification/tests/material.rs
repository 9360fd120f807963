use qs_ui::material::compile::Instance;
use qs_ui::material::name::{
    all, CHROME_BAR, CHROME_CHIP_HOVER, CHROME_SHELF, ROW_BODY, ROW_BODY_ALT, ROW_HOVER,
    ROW_SELECTED, SURFACE_CANVAS,
};
use qs_ui::material::resolve::{resolve_all, Scales, TokenError};
use qs_ui::material::{
    Drive, Edge, Fidelity, FieldCentreDef, Floor, GeometryDef, LayerDef, Material, MaterialDef,
    PhaseDef, PrimKind, Srgba, Substance, Surface, SwellDef, RESTING_RIPPLE,
};
use qs_ui::units::{Micros, Reading, MICRO};

fn px(x: f64) -> Micros {
    (x * 1e6).round() as Micros
}

fn opaque(r: f64, g: f64, b: f64) -> Srgba {
    Srgba {
        r: px(r),
        g: px(g),
        b: px(b),
        a: MICRO,
    }
}

fn name(s: &str) -> String {
    String::from(s)
}

fn scales() -> Scales {
    Scales {
        colors: vec![
            (name("surface/base"), opaque(0.08, 0.08, 0.1)),
            (name("surface/overlay"), opaque(0.12, 0.12, 0.15)),
            (name("surface/overlay-lift"), opaque(0.18, 0.18, 0.22)),
            (name("accent/fill"), opaque(0.2, 0.3, 0.7)),
            (name("accent/halo"), opaque(0.3, 0.5, 0.9)),
            (name("shadow"), opaque(0.0, 0.0, 0.0)),
            (name("light"), opaque(1.0, 1.0, 1.0)),
        ],
        space: vec![(name("sm"), px(4.0)), (name("lg"), px(8.0))],
        radius: vec![(name("row"), px(6.0))],
        elevation: vec![(name("low"), px(2.0)), (name("high"), px(6.0))],
    }
}

fn still() -> SwellDef {
    SwellDef::default()
}

fn plain() -> GeometryDef {
    GeometryDef::default()
}

fn edge(edge: Edge) -> GeometryDef {
    GeometryDef {
        edge: Some(edge),
        thickness: Some(px(1.0)),
        ..GeometryDef::default()
    }
}

fn fill(color: &str, alpha: Option<f64>, geometry: GeometryDef) -> LayerDef {
    LayerDef::Fill {
        color: name(color),
        alpha: alpha.map(px),
        swell: still(),
        geometry,
    }
}

fn glow(color: &str, alpha: f64, reach: &str, swell: SwellDef, geometry: GeometryDef) -> LayerDef {
    LayerDef::Glow {
        color: name(color),
        to: None,
        alpha: Some(px(alpha)),
        reach: name(reach),
        swell,
        geometry,
    }
}

fn rim(color: &str, alpha: f64) -> LayerDef {
    LayerDef::Rim {
        color: name(color),
        alpha: Some(px(alpha)),
        width: px(1.0),
        swell: still(),
        geometry: plain(),
    }
}

fn material_def(layers: Vec<LayerDef>, elevation: Option<&str>) -> MaterialDef {
    MaterialDef {
        layers,
        over: vec![name("surface/base")],
        text: vec![],
        text_lit: vec![],
        description: String::new(),
        elevation: elevation.map(name),
    }
}

/// A contact shadow, a halo that swells, a lit fill that emits, and a rim.
fn selected_layers() -> Vec<LayerDef> {
    vec![
        glow(
            "shadow",
            0.4,
            "sm",
            still(),
            GeometryDef {
                offset: px(3.0),
                ..GeometryDef::default()
            },
        ),
        glow(
            "accent/halo",
            0.45,
            "lg",
            SwellDef {
                alpha: px(2.0),
                reach: px(1.5),
                width: px(1.0),
            },
            plain(),
        ),
        LayerDef::Pbr {
            color: name("accent/fill"),
            alpha: None,
            bevel: px(2.0),
            roughness: px(0.6),
            metallic: px(0.1),
            env: px(0.3),
            emission: px(0.2),
            emits: Some(name("accent/halo")),
            emits_strength: px(0.5),
            swell: still(),
            phase: PhaseDef::default(),
            geometry: plain(),
        },
        rim("light", 0.3),
    ]
}

fn defs() -> Vec<(String, MaterialDef)> {
    vec![
        (
            name(SURFACE_CANVAS),
            material_def(
                vec![LayerDef::Field {
                    color: name("surface/base"),
                    alpha: None,
                    amplitude: px(0.5),
                    centres: vec![FieldCentreDef {
                        color: name("accent/halo"),
                        alpha: px(0.2),
                        at: (px(0.25), px(0.75)),
                        drift: (px(0.05), px(0.05)),
                        reach: px(0.6),
                        phase: px(0.1),
                    }],
                    swell: still(),
                    phase: PhaseDef {
                        rotate: px(1.0),
                        flicker: 0,
                    },
                    geometry: plain(),
                }],
                None,
            ),
        ),
        (
            name(ROW_BODY),
            material_def(vec![fill("surface/base", None, plain())], Some("low")),
        ),
        (
            name(ROW_BODY_ALT),
            material_def(vec![fill("surface/overlay", Some(0.5), plain())], None),
        ),
        (
            name(ROW_HOVER),
            material_def(
                vec![
                    fill("surface/overlay-lift", Some(0.6), plain()),
                    rim("light", 0.1),
                ],
                Some("low"),
            ),
        ),
        (
            name(ROW_SELECTED),
            material_def(selected_layers(), Some("high")),
        ),
        (
            name(CHROME_BAR),
            material_def(
                vec![
                    LayerDef::Gradient {
                        color: name("surface/overlay-lift"),
                        to: name("surface/overlay"),
                        angle: px(90.0),
                        alpha: None,
                        flat: Some(name("surface/overlay")),
                        swell: still(),
                        phase: PhaseDef::default(),
                        geometry: plain(),
                    },
                    fill("light", Some(0.1), edge(Edge::Top)),
                    fill("shadow", Some(0.5), edge(Edge::Bottom)),
                ],
                None,
            ),
        ),
        (
            name(CHROME_CHIP_HOVER),
            material_def(
                vec![
                    fill("surface/overlay-lift", Some(0.8), plain()),
                    rim("light", 0.2),
                ],
                None,
            ),
        ),
        (
            name(CHROME_SHELF),
            material_def(vec![fill("surface/overlay", None, plain())], None),
        ),
    ]
}

fn material(wanted: &str) -> Material {
    let all = resolve_all(&defs(), &scales()).unwrap();
    for (found, material) in all {
        if found == wanted {
            return material;
        }
    }
    panic!("missing material {wanted}");
}

fn surface() -> Surface {
    Surface::new(px(10.0), px(20.0), px(400.0), px(28.0), px(6.0), px(1.0))
        .with_shadow(px(0.6), px(0.8))
}

fn compiled(wanted: &str, effects: bool) -> Vec<Instance> {
    let mut out = Vec::new();
    material(wanted).compile(surface(), MICRO, Drive::rest(), effects, &mut out);
    out
}

fn at_drive(material: &Material, intensity: f64, phase: f64) -> Vec<Instance> {
    let mut out = Vec::new();
    let drive = Drive::new(px(intensity), Reading::Finite(px(phase)), RESTING_RIPPLE);
    material.compile(surface(), MICRO, drive, true, &mut out);
    out
}

fn over(top: Srgba, under: Srgba) -> Srgba {
    let mix = |t: Micros, u: Micros| (t * top.a + u * (MICRO - top.a)) / MICRO;
    Srgba {
        r: mix(top.r, under.r),
        g: mix(top.g, under.g),
        b: mix(top.b, under.b),
        a: top.a + under.a * (MICRO - top.a) / MICRO,
    }
}

fn is_glow(i: &Instance) -> bool {
    matches!(i, Instance::Glow { .. })
}

fn is_rect(i: &Instance) -> bool {
    matches!(i, Instance::Rect { .. })
}

#[test]
fn every_name_is_distinct_and_resolves() {
    for wanted in all() {
        let _ = material(wanted);
    }
    assert_eq!(all().len(), 8);
}

#[test]
fn a_material_compiles_to_instances_of_the_effect_kinds_it_names() {
    let instances = compiled(ROW_SELECTED, true);
    assert!(is_glow(&instances[0]), "the halo must be first");
    assert!(instances.iter().any(|i| matches!(i, Instance::Pbr { .. })));
    assert!(
        matches!(instances.last(), Some(Instance::Rim { .. })),
        "the rim must be last"
    );

    let bar = compiled(CHROME_BAR, true);
    assert!(matches!(bar[0], Instance::Gradient { .. }));
    assert_eq!(bar.len(), 3, "{bar:?}");
    assert_eq!(
        instances.len(),
        4,
        "the selection is a contact shadow, a halo, a lit surface and a rim"
    );
}

#[test]
fn a_material_declares_the_fidelity_it_needs_without_naming_a_tier() {
    assert_eq!(
        material(ROW_SELECTED).fidelity(),
        PrimKind::Glow.fidelity()
    );
    assert_eq!(material(CHROME_BAR).fidelity(), Fidelity::Exact);
    assert_eq!(
        material(SURFACE_CANVAS).fidelity(),
        PrimKind::Field.fidelity()
    );
    assert_eq!(material(ROW_HOVER).fidelity(), PrimKind::Rim.fidelity());
}

#[test]
fn effects_off_drops_the_halo_and_flattens_the_ramp() {
    let selected = compiled(ROW_SELECTED, false);
    assert!(selected.iter().all(is_rect), "{selected:?}");
    assert_eq!(selected.len(), 1, "the fill, and nothing else");

    let bar = compiled(CHROME_BAR, false);
    assert!(bar.iter().all(is_rect), "{bar:?}");
    assert_eq!(bar.len(), 3);
}

#[test]
fn a_ramp_collapses_to_the_stop_the_material_names_and_not_to_a_convention() {
    let bar = material(CHROME_BAR);
    let ramp = bar
        .layers
        .iter()
        .find(|l| l.kind == PrimKind::Gradient)
        .unwrap();
    assert_eq!(ramp.flat, opaque(0.12, 0.12, 0.15));
    assert_ne!(ramp.flat, ramp.near);
}

#[test]
fn an_opaque_fill_hides_what_is_under_it_and_a_reordered_halo_does_not() {
    let base = opaque(0.08, 0.08, 0.1);
    let mut material = material(ROW_SELECTED);

    let correct = material.composites(base, over);
    material.layers.reverse();
    let wrong = material.composites(base, over);

    assert!(correct.iter().all(|c| c.a == MICRO));
    assert_ne!(correct, wrong);
}

#[test]
fn a_drive_makes_the_selection_halo_louder_and_nothing_else() {
    let material = material(ROW_SELECTED);
    let rest = at_drive(&material, 0.0, 0.0);
    let driven = at_drive(&material, 1.0, 0.0);

    assert_eq!(
        rest.len(),
        driven.len(),
        "the drive changed the layer count"
    );
    // The glow that lies on its surface is the halo; the other is a displaced shadow.
    let halo = |list: &[Instance]| -> (Micros, Micros) {
        match list
            .iter()
            .filter(|i| i.shape().x == surface().x)
            .find(|i| is_glow(i))
        {
            Some(Instance::Glow { reach, near, .. }) => (*reach, near.a),
            _ => panic!("the selection has a halo coincident with its surface"),
        }
    };
    assert_eq!(halo(&rest), (px(8.0), px(0.45)));
    assert_eq!(halo(&driven), (px(12.0), px(0.9)));

    let fill = |list: &[Instance]| -> Instance {
        *list
            .iter()
            .find(|i| matches!(i, Instance::Pbr { .. }))
            .unwrap()
    };
    assert_eq!(fill(&rest), fill(&driven));
}

#[test]
fn a_drive_past_the_ends_is_clamped_rather_than_extrapolated() {
    let material = material(ROW_SELECTED);
    assert_eq!(
        at_drive(&material, 1.4, 0.0),
        at_drive(&material, 1.0, 0.0)
    );
    assert_eq!(
        at_drive(&material, -0.5, 0.0),
        at_drive(&material, 0.0, 0.0)
    );
    for instance in at_drive(&material, 1.0, 0.0) {
        if let Instance::Glow { near, .. } = instance {
            assert!(near.a <= MICRO);
        }
    }
}

#[test]
fn the_contrast_gate_sees_a_material_at_full_swell_as_well_as_at_rest() {
    let base = opaque(0.08, 0.08, 0.1);
    let mut swelling = material(ROW_SELECTED);
    assert!(swelling.layers.iter().any(|layer| layer.swells()));

    for layer in &mut swelling.layers {
        if layer.kind == PrimKind::Pbr {
            layer.near.a = px(0.5);
            layer.far.a = px(0.5);
        }
    }
    let composites = swelling.composites(base, over);
    assert!(composites.len() > 1, "the drive axis is not being walked");
}

#[test]
fn a_glow_material_reports_the_bleed_a_caller_must_cull_by() {
    let selected = material(ROW_SELECTED);
    assert!(selected.bleed(px(2.0), Drive::rest()) > selected.bleed(px(1.0), Drive::rest()));
    assert_eq!(selected.bleed(px(1.0), Drive::rest()), px(8.0));
    assert_eq!(
        material(ROW_BODY).bleed(px(1.0), Drive::new(MICRO, Reading::Finite(0), RESTING_RIPPLE)),
        0,
        "a stack with no halo reaches past nothing"
    );
}

/// The bar with its ramp making one full turn per cycle.
fn rotating_bar() -> Material {
    let mut material = material(CHROME_BAR);
    let ramp = material
        .layers
        .iter_mut()
        .find(|l| l.kind == PrimKind::Gradient)
        .unwrap();
    ramp.phase.rotate = MICRO;
    material
}

#[test]
fn a_material_with_no_phase_consuming_layer_is_untouched_by_one() {
    let (mut inert, mut phased) = (0, 0);
    for wanted in all() {
        let material = material(wanted);
        if material.layers.iter().any(|l| l.phased()) {
            phased += 1;
            continue;
        }
        inert += 1;
        let rest = at_drive(&material, 0.0, 0.0);
        for phase in [0.125, 0.25, 0.5, 0.75, 0.999] {
            assert_eq!(
                at_drive(&material, 0.0, phase),
                rest,
                "{wanted} moved at phase {phase}"
            );
        }
    }
    assert!(inert > 0 && phased > 0, "inert {inert}, phased {phased}");
}

#[test]
fn a_phase_rotates_the_layer_that_asked_for_it_and_leaves_its_neighbours_alone() {
    let material = rotating_bar();
    let rest = at_drive(&material, 0.0, 0.0);
    let quarter = at_drive(&material, 0.0, 0.25);
    assert_eq!(
        rest.len(),
        quarter.len(),
        "the phase changed the layer count"
    );

    let angle = |list: &[Instance]| -> Micros {
        match list.first() {
            Some(Instance::Gradient { angle, .. }) => *angle,
            _ => panic!("the bar draws a ramp"),
        }
    };
    assert_eq!(
        angle(&quarter) - angle(&rest),
        px(90.0),
        "a quarter turn did not move the axis by a right angle"
    );

    assert_eq!(
        at_drive(&material, 0.0, 1.0),
        rest,
        "one turn did not come back round to the authored angle"
    );

    assert_eq!(rest[1..], quarter[1..]);
}

#[test]
fn a_phase_cannot_change_a_colour_the_gate_checks() {
    let base = opaque(0.08, 0.08, 0.1);
    assert_eq!(
        material(CHROME_BAR).composites(base, over),
        rotating_bar().composites(base, over)
    );
}

#[test]
fn a_rim_lights_the_edge_and_is_not_counted_as_something_text_sits_on() {
    let material = material(CHROME_CHIP_HOVER);
    assert!(material.layers.iter().any(|l| l.kind == PrimKind::Rim));

    let base = opaque(0.18, 0.18, 0.22);
    let mut without = material.clone();
    without.layers.retain(|l| l.kind != PrimKind::Rim);
    assert_eq!(
        material.composites(base, over),
        without.composites(base, over)
    );

    assert_eq!(
        PrimKind::Rim.fidelity(),
        Fidelity::Enhanced {
            floor: Floor::Nothing
        }
    );
}

#[test]
fn an_edge_band_is_square_and_sits_on_the_edge_it_names() {
    let instances = compiled(CHROME_BAR, true);
    let s = surface();
    let hairline = instances.last().unwrap().shape();
    assert_eq!(hairline.radius, 0);
    assert_eq!(hairline.x, s.x);
    assert_eq!(hairline.w, s.w);
    assert_eq!(hairline.h, px(1.0));
    assert_eq!(
        hairline.y + hairline.h,
        s.y + s.h,
        "the bottom band does not end at the bottom edge"
    );
}

#[test]
fn alpha_scales_every_layer_and_zero_draws_nothing() {
    let material = material(ROW_SELECTED);
    let at = |alpha: f64| {
        let mut out = Vec::new();
        material.compile(surface(), px(alpha), Drive::rest(), true, &mut out);
        out
    };
    assert_eq!(at(0.5).len(), at(1.0).len());
    assert_ne!(at(0.5)[0], at(1.0)[0], "alpha did not reach the halo");
    assert!(at(0.0).is_empty(), "a fully faded material still drew");
}

#[test]
fn a_degenerate_surface_emits_nothing_rather_than_an_inverted_rect() {
    let mut out = Vec::new();
    material(ROW_HOVER).compile(
        Surface::new(0, 0, 0, 0, px(6.0), px(1.0)),
        MICRO,
        Drive::rest(),
        true,
        &mut out,
    );
    assert!(out.is_empty());
}

#[test]
fn a_substance_changes_the_bevel_of_a_lit_layer_only() {
    let material = material(ROW_SELECTED);
    let mut out = Vec::new();
    material.compile_with(
        surface(),
        MICRO,
        Drive::rest(),
        Some(Substance { bevel: px(3.0) }),
        true,
        &mut out,
    );
    let rest = at_drive(&material, 0.0, 0.0);
    for (a, b) in out.iter().zip(&rest) {
        match (a, b) {
            (Instance::Pbr { bevel, .. }, Instance::Pbr { bevel: before, .. }) => {
                assert_ne!(bevel, before);
            }
            _ => assert_eq!(a, b),
        }
    }
}

#[test]
fn a_lamp_peaks_where_its_strength_and_flicker_say() {
    let lamp = material(ROW_SELECTED).emission_peak();
    assert_eq!(lamp.strength, px(0.26));
    assert_eq!(lamp.color, opaque(0.2, 0.3, 0.7));
    assert_eq!(material(ROW_BODY).emission_peak().strength, 0);
    assert_eq!(material(ROW_BODY).flicker_peak(), MICRO);
}

#[test]
fn a_lit_composite_is_lifted_by_the_lamp() {
    let base = opaque(0.08, 0.08, 0.1);
    let material = material(ROW_SELECTED);
    let plain = material.composites(base, over);
    let lit = material.lit_composites(base, over, |c, lamp| Srgba {
        r: (c.r + lamp.strength / 10).min(MICRO),
        ..c
    });
    assert_ne!(plain, lit);
}

fn fault_of(layer: LayerDef, elevation: Option<&str>) -> Option<TokenError> {
    resolve_all(
        &vec![(name("x/y"), material_def(vec![layer], elevation))],
        &scales(),
    )
    .err()
}

#[test]
fn a_material_naming_a_token_that_does_not_exist_is_an_error() {
    assert_eq!(
        fault_of(fill("a/nope", None, plain()), None),
        Some(TokenError::MaterialUnknownToken {
            material: name("x/y"),
            token: name("a/nope"),
        })
    );
}

#[test]
fn a_material_naming_a_space_step_that_does_not_exist_is_an_error() {
    assert_eq!(
        fault_of(
            glow("surface/base", 1.0, "enormous", still(), plain()),
            None
        ),
        Some(TokenError::MaterialUnknownStep {
            material: name("x/y"),
            step: name("enormous"),
        })
    );
}

#[test]
fn a_material_naming_a_radius_class_that_does_not_exist_is_an_error() {
    let geometry = GeometryDef {
        radius: Some(name("pill")),
        ..GeometryDef::default()
    };
    assert_eq!(
        fault_of(fill("surface/base", None, geometry), None),
        Some(TokenError::MaterialUnknownRadius {
            material: name("x/y"),
            class: name("pill"),
        })
    );
}

#[test]
fn a_material_naming_an_elevation_that_does_not_exist_is_an_error() {
    assert_eq!(
        fault_of(fill("surface/base", None, plain()), Some("orbit")),
        Some(TokenError::MaterialUnknownElevation {
            material: name("x/y"),
            step: name("orbit"),
        })
    );
}

#[test]
fn a_field_with_more_centres_than_there_is_room_for_is_an_error() {
    let centre = || FieldCentreDef {
        color: name("light"),
        alpha: MICRO,
        at: (0, 0),
        drift: (0, 0),
        reach: MICRO,
        phase: 0,
    };
    let field = LayerDef::Field {
        color: name("surface/base"),
        alpha: None,
        amplitude: 0,
        centres: vec![centre(), centre(), centre(), centre(), centre()],
        swell: still(),
        phase: PhaseDef::default(),
        geometry: plain(),
    };
    assert_eq!(
        fault_of(field, None),
        Some(TokenError::MaterialTooManyCentres {
            material: name("x/y"),
            centres: 5,
            limit: 4,
        })
    );
}

#[test]
fn a_phase_that_is_not_a_number_is_no_turn_at_all() {
    assert_eq!(Drive::new(0, Reading::NotANumber, 0).phase, 0);
    assert_eq!(Drive::new(0, Reading::Finite(px(-0.25)), 0).phase, px(0.75));
    assert_eq!(Drive::new(0, Reading::Infinite, px(1.5)).ripple, MICRO);
}

/// Where the lamp's shimmer is at `phase`.
fn ripple(phase: f64) -> Micros {
    let turn = std::f64::consts::TAU * phase;
    px(turn.sin() * 0.55 + (turn * 2.7 + 1.7).sin() * 0.30 + (turn * 6.3 + 3.1).sin() * 0.15)
}

#[test]
fn a_lamp_shimmers_with_the_cycle_and_rests_where_its_shimmer_starts() {
    assert_eq!(ripple(0.0), RESTING_RIPPLE);
    let mut lamp = material(ROW_SELECTED);
    for layer in &mut lamp.layers {
        if layer.kind == PrimKind::Pbr {
            layer.flicker = px(0.06);
        }
    }
    let emission_at = |phase: f64| -> Micros {
        let mut out = Vec::new();
        let drive = Drive::new(0, Reading::Finite(px(phase)), ripple(phase));
        lamp.compile(surface(), MICRO, drive, true, &mut out);
        match out.iter().find(|i| matches!(i, Instance::Pbr { .. })) {
            Some(Instance::Pbr { emission, .. }) => *emission,
            _ => panic!("the selection has a fill"),
        }
    };
    // A fifth of one and six hundredths of the ripple at the start of the cycle.
    assert_eq!(emission_at(0.0), 203_644);
    assert_ne!(emission_at(0.0), emission_at(0.25));
    for step in 0..100 {
        let emission = emission_at(f64::from(step) / 100.0);
        assert!((px(0.188)..=px(0.212)).contains(&emission));
    }
}

#[test]
fn a_material_draws_at_most_one_primitive_for_each_layer() {
    for wanted in all() {
        let material = material(wanted);
        for effects in [true, false] {
            for alpha in [0, MICRO / 3, MICRO] {
                let mut out = Vec::new();
                material.compile(surface(), alpha, Drive::rest(), effects, &mut out);
                assert!(out.len() <= material.layers.len());
            }
        }
    }
}

#[test]
fn what_is_no_background_can_be_taken_away_and_a_base_is_left() {
    let base = opaque(0.08, 0.08, 0.1);
    let material = material(ROW_SELECTED);
    let full = material.composites(base, over);
    assert!(!full.is_empty());
    for (i, a) in full.iter().enumerate() {
        assert!(!full[..i].contains(a));
    }

    let edge = |kind: PrimKind| kind == PrimKind::Stroke || kind == PrimKind::Rim;
    let mut body = material.clone();
    body.layers.retain(|l| !edge(l.kind));
    assert!(body.layers.len() < material.layers.len());
    assert_eq!(body.composites(base, over), full);

    let mut edges = material.clone();
    edges.layers.retain(|l| edge(l.kind));
    assert!(!edges.layers.is_empty());
    assert_eq!(edges.composites(base, over), vec![base]);
}

#[test]
fn the_flawed_material_that_is_least_by_name_is_reported() {
    let flawed = |color: &str| material_def(vec![fill(color, None, plain())], None);
    let defs = vec![
        (name("a"), flawed("surface/base")),
        (name("ab"), flawed("nowhere")),
        (name("b"), flawed("nothing")),
    ];
    assert_eq!(
        resolve_all(&defs, &scales()).err(),
        Some(TokenError::MaterialUnknownToken {
            material: name("ab"),
            token: name("nowhere"),
        })
    );
}

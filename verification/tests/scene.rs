use qs_ui::density::Density;
use qs_ui::fenwick::Heights;
use qs_ui::material::name::{
    all, CHROME_BAR, CHROME_CHIP_HOVER, CHROME_SHELF, ROW_BODY, ROW_BODY_ALT, ROW_HOVER,
    ROW_SELECTED, SURFACE_CANVAS,
};
use qs_ui::material::resolve::{resolve_all, Scales};
use qs_ui::material::{
    Drive, Edge, FieldCentreDef, GeometryDef, LayerDef, Material, MaterialDef, PhaseDef, Srgba,
    Surface, SwellDef,
};
use qs_ui::recycler::Recycler;
use qs_ui::row_source::StubbornSource;
use qs_ui::scene::{
    focus_light, grazing, max_reach, occupies_scene, FocusLamp, FocusLightTokens, SceneBuilder,
    Strip,
};
use qs_ui::units::{Micros, MICRO};

fn px(x: f64) -> Micros {
    (x * 1e6).round() as Micros
}

fn opaque(r: f64, g: f64, b: f64) -> Srgba {
    Srgba {
        r: px(r),
        g: px(g),
        b: px(b),
        a: MICRO,
    }
}

fn name(s: &str) -> String {
    String::from(s)
}

fn scales() -> Scales {
    Scales {
        colors: vec![
            (name("surface/base"), opaque(0.08, 0.08, 0.1)),
            (name("surface/overlay"), opaque(0.12, 0.12, 0.15)),
            (name("surface/overlay-lift"), opaque(0.18, 0.18, 0.22)),
            (name("accent/fill"), opaque(0.2, 0.3, 0.7)),
            (name("accent/halo"), opaque(0.3, 0.5, 0.9)),
            (name("shadow"), opaque(0.0, 0.0, 0.0)),
            (name("light"), opaque(1.0, 1.0, 1.0)),
        ],
        space: vec![(name("sm"), px(4.0)), (name("lg"), px(8.0))],
        radius: vec![(name("row"), px(6.0))],
        elevation: vec![(name("low"), px(2.0)), (name("high"), px(6.0))],
    }
}

fn still() -> SwellDef {
    SwellDef::default()
}

fn plain() -> GeometryDef {
    GeometryDef::default()
}

fn edge(edge: Edge) -> GeometryDef {
    GeometryDef {
        edge: Some(edge),
        thickness: Some(px(1.0)),
        ..GeometryDef::default()
    }
}

fn fill(color: &str, alpha: Option<f64>, geometry: GeometryDef) -> LayerDef {
    LayerDef::Fill {
        color: name(color),
        alpha: alpha.map(px),
        swell: still(),
        geometry,
    }
}

fn glow(color: &str, alpha: f64, reach: &str, swell: SwellDef, geometry: GeometryDef) -> LayerDef {
    LayerDef::Glow {
        color: name(color),
        to: None,
        alpha: Some(px(alpha)),
        reach: name(reach),
        swell,
        geometry,
    }
}

fn rim(color: &str, alpha: f64) -> LayerDef {
    LayerDef::Rim {
        color: name(color),
        alpha: Some(px(alpha)),
        width: px(1.0),
        swell: still(),
        geometry: plain(),
    }
}

fn material_def(layers: Vec<LayerDef>, elevation: Option<&str>) -> MaterialDef {
    MaterialDef {
        layers,
        over: vec![name("surface/base")],
        text: vec![],
        text_lit: vec![],
        description: String::new(),
        elevation: elevation.map(name),
    }
}

/// A contact shadow, a halo that swells, a lit fill that emits, and a rim.
fn selected_layers() -> Vec<LayerDef> {
    vec![
        glow(
            "shadow",
            0.4,
            "sm",
            still(),
            GeometryDef {
                offset: px(3.0),
                ..GeometryDef::default()
            },
        ),
        glow(
            "accent/halo",
            0.45,
            "lg",
            SwellDef {
                alpha: px(2.0),
                reach: px(1.5),
                width: px(1.0),
            },
            plain(),
        ),
        LayerDef::Pbr {
            color: name("accent/fill"),
            alpha: None,
            bevel: px(2.0),
            roughness: px(0.6),
            metallic: px(0.1),
            env: px(0.3),
            emission: px(0.2),
            emits: Some(name("accent/halo")),
            emits_strength: px(0.5),
            swell: still(),
            phase: PhaseDef::default(),
            geometry: plain(),
        },
        rim("light", 0.3),
    ]
}

fn defs() -> Vec<(String, MaterialDef)> {
    vec![
        (
            name(SURFACE_CANVAS),
            material_def(
                vec![LayerDef::Field {
                    color: name("surface/base"),
                    alpha: None,
                    amplitude: px(0.5),
                    centres: vec![FieldCentreDef {
                        color: name("accent/halo"),
                        alpha: px(0.2),
                        at: (px(0.25), px(0.75)),
                        drift: (px(0.05), px(0.05)),
                        reach: px(0.6),
                        phase: px(0.1),
                    }],
                    swell: still(),
                    phase: PhaseDef {
                        rotate: px(1.0),
                        flicker: 0,
                    },
                    geometry: plain(),
                }],
                None,
            ),
        ),
        (
            name(ROW_BODY),
            material_def(vec![fill("surface/base", None, plain())], Some("low")),
        ),
        (
            name(ROW_BODY_ALT),
            material_def(vec![fill("surface/overlay", Some(0.5), plain())], None),
        ),
        (
            name(ROW_HOVER),
            material_def(
                vec![
                    fill("surface/overlay-lift", Some(0.6), plain()),
                    rim("light", 0.1),
                ],
                Some("low"),
            ),
        ),
        (
            name(ROW_SELECTED),
            material_def(selected_layers(), Some("high")),
        ),
        (
            name(CHROME_BAR),
            material_def(
                vec![
                    LayerDef::Gradient {
                        color: name("surface/overlay-lift"),
                        to: name("surface/overlay"),
                        angle: px(90.0),
                        alpha: None,
                        flat: Some(name("surface/overlay")),
                        swell: still(),
                        phase: PhaseDef::default(),
                        geometry: plain(),
                    },
                    fill("light", Some(0.1), edge(Edge::Top)),
                    fill("shadow", Some(0.5), edge(Edge::Bottom)),
                ],
                None,
            ),
        ),
        (
            name(CHROME_CHIP_HOVER),
            material_def(
                vec![
                    fill("surface/overlay-lift", Some(0.8), plain()),
                    rim("light", 0.2),
                ],
                None,
            ),
        ),
        (
            name(CHROME_SHELF),
            material_def(vec![fill("surface/overlay", None, plain())], None),
        ),
    ]
}

fn material(wanted: &str) -> Material {
    let all = resolve_all(&defs(), &scales()).unwrap();
    for (found, material) in all {
        if found == wanted {
            return material;
        }
    }
    panic!("missing material {wanted}");
}

/// A scene of plain values: the environment and the key light are numbers.
fn builder(viewport: (Micros, Micros), margin: Micros) -> SceneBuilder<u8, u8> {
    SceneBuilder::new(1, viewport, margin, 7, 100)
}

fn focus() -> FocusLightTokens {
    FocusLightTokens {
        height: px(40.0),
        size_deg: px(10.0),
        share: px(0.6),
        ambient: px(0.2),
    }
}

#[test]
fn the_margin_is_the_furthest_a_shadow_can_land() {
    assert_eq!(max_reach(px(20.0), px(1.5)), px(30.0));
    assert!(max_reach(px(40.0), px(1.5)) > max_reach(px(20.0), px(1.5)));
}

#[test]
fn a_negative_token_cannot_produce_a_margin_that_culls_the_visible() {
    assert_eq!(max_reach(px(-5.0), px(1.5)), 0);
    assert_eq!(max_reach(px(20.0), px(-1.0)), 0);
}

#[test]
fn a_fully_transparent_material_does_not_occupy_the_scene() {
    let solid = material(ROW_SELECTED);
    assert!(occupies_scene(&solid));

    let mut invisible = solid.clone();
    for layer in &mut invisible.layers {
        layer.near.a = 0;
        layer.far.a = 0;
    }
    assert!(!occupies_scene(&invisible));
}

#[test]
fn every_shipped_materials_slab_equals_one_of_its_instances_exactly() {
    for wanted in all() {
        let material = material(wanted);
        let surface = Surface::new(px(37.0), px(91.0), px(240.0), px(28.0), px(12.0), px(2.0));

        let Some(slab) = material.slab(surface) else {
            panic!("material `{wanted}` produced no slab");
        };
        let mut instances = Vec::new();
        material.compile(surface, MICRO, Drive::rest(), true, &mut instances);
        assert!(
            instances.iter().any(|i| i.shape() == slab.shape),
            "material `{wanted}`: slab {:?} matches no compiled instance",
            slab.shape,
        );
    }
}

#[test]
fn a_slab_carries_its_materials_elevation_in_physical_pixels() {
    let material = material(ROW_SELECTED);
    let slab = material
        .slab(Surface::new(
            0,
            0,
            px(100.0),
            px(30.0),
            px(6.0),
            px(2.0),
        ))
        .unwrap();
    assert_eq!(slab.elevation, material.elevation * 2);
    assert_eq!(slab.elevation, px(12.0));
}

#[test]
fn the_builder_culls_at_the_widened_viewport_not_the_viewport() {
    let material = material(ROW_BODY);
    let margin = px(40.0);
    let viewport = (px(800.0), px(600.0));
    let mut scene = builder(viewport, margin);

    let at = |x: f64| Surface::new(px(x), px(100.0), px(100.0), px(28.0), px(6.0), px(1.0));
    scene.add(&material, at(820.0));
    assert!(
        scene.last().is_some(),
        "a caster inside the margin was culled"
    );

    let before = scene.finish().slabs.len();
    let mut scene = builder(viewport, margin);
    scene.add(&material, at(841.0));
    assert_eq!(
        scene.finish().slabs.len() + before,
        1,
        "a surface past the widened viewport was included"
    );
}

#[test]
fn a_full_scene_counts_what_it_drops() {
    let material = material(ROW_BODY);
    let mut scene: SceneBuilder<u8, u8> =
        SceneBuilder::new(1, (px(800.0), px(600.0)), 0, 7, 1);
    let surface = Surface::new(0, 0, px(100.0), px(28.0), 0, px(1.0));
    scene.add(&material, surface);
    scene.add(&material, surface);
    scene.set_key_light(9);
    let scene = scene.finish();
    assert_eq!((scene.slabs.len(), scene.dropped), (1, 1));
    assert_eq!(scene.key_light, Some(9));
    assert_eq!(scene.environment, 7);
}

#[test]
fn the_margin_derives_from_the_rig_not_from_a_constant() {
    let direction = (px(0.4), px(0.3), px(-0.866));
    let reach = max_reach(px(6.0), grazing(direction));
    assert!(reach > 0);
    assert_eq!(grazing((px(0.3), px(0.4), px(1.0))), px(0.5));

    assert_eq!(grazing((0, 0, px(1.0))), 0);
}

#[test]
fn moving_focus_moves_the_lamp_in_the_published_scene() {
    let published = |row_top: f64| -> FocusLamp {
        let mut scene = builder((px(800.0), px(600.0)), px(40.0));
        scene.set_focus_light(Some(focus_light(
            Strip {
                x: px(12.0),
                y: px(row_top),
                w: px(300.0),
                h: px(28.0),
            },
            px(6.0),
            focus(),
            px(2.0),
            MICRO,
        )));
        scene.finish().focus_light.unwrap()
    };

    let first = published(100.0);
    let second = published(240.0);

    assert_eq!(
        first.rect,
        Strip {
            x: px(12.0),
            y: px(100.0),
            w: px(300.0),
            h: px(28.0)
        },
        "the lamp's strip is not the focused region's rect"
    );
    assert_eq!(second.rect.y - first.rect.y, px(140.0));
    assert_eq!(
        (second.rect.x, second.rect.w),
        (first.rect.x, first.rect.w)
    );
    assert_eq!(first.height, px(6.0) + focus().height * 2);
}

#[test]
fn a_lamp_at_zero_gain_is_arithmetically_absent() {
    let at = |gain: f64| {
        focus_light(
            Strip {
                x: 0,
                y: 0,
                w: px(100.0),
                h: px(28.0),
            },
            px(4.0),
            focus(),
            px(1.0),
            px(gain),
        )
    };

    assert_eq!(at(0.0).share, 0);
    assert_eq!(at(0.0).ambient, 0);
    assert!(at(0.5).share > 0 && at(0.5).share < at(1.0).share);
    assert!(at(0.5).ambient > 0 && at(0.5).ambient < at(1.0).ambient);
    assert_eq!(at(1.0).share, focus().share());
    assert_eq!(at(1.0).ambient, focus().ambient());
    assert!(at(4.0).share <= MICRO && at(-1.0).share == 0 && at(-1.0).ambient == 0);
}

#[test]
fn hit_testing_is_identical_with_the_mode_on_and_off() {
    let source = StubbornSource { count: 1000 };
    let layout = Recycler::new()
        .layout(
            &source,
            &Heights::Uniform(28),
            1920,
            1080,
            px(1.0),
            px(1.0),
            Density::Default,
            28,
            px(13.0),
        )
        .at(px(240.0), px(96.0));
    let off: Vec<Option<u64>> = (0..1080).map(|y| layout.row_at(y * MICRO)).collect();

    let mut scene = builder((px(1000.0), px(1080.0)), px(40.0));
    scene.add(
        &material(SURFACE_CANVAS),
        Surface::new(0, 0, px(1000.0), px(1080.0), 0, px(1.0)),
    );
    assert!(!scene.finish().slabs.is_empty());

    let on: Vec<Option<u64>> = (0..1080).map(|y| layout.row_at(y * MICRO)).collect();
    assert_eq!(off, on);
}

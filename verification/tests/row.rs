use qs_ui::density::{Density, MAX_TEXT_SCALE, MIN_TEXT_SCALE};
use qs_ui::mark::{no_marks, SessionMark, SessionMarks};
use qs_ui::material::compile::Instance;
use qs_ui::material::resolve::{resolve, Scales};
use qs_ui::material::{
    GeometryDef, LayerDef, Material, MaterialDef, PhaseDef, Shape, Srgba, Substance, SwellDef,
    RESTING_RIPPLE,
};
use qs_ui::motion::{InteractionMotion, MotionPreference};
use qs_ui::recycler::{Recycler, ViewportLayout, SURFACE_PRIMS_PER_ENTRY};
use qs_ui::row::atlas::{
    badge_text, draw_extension_badge, AtlasEntry, IconKey, IconPx, IconShape, Uv,
};
use qs_ui::row::frame::{Allowance, Frame, Look, Looks};
use qs_ui::row::geometry::{IconSize, RowTokens};
use qs_ui::row::ink::{icon_tint, Emblem, Opacity, Tint, Token};
use qs_ui::row::piece::{Align, Face, IconPiece, Piece, TextPiece};
use qs_ui::row::renderer::{cell_advance, FontId, FontMetrics};
use qs_ui::row::truncate::{draw_text, glyph_pens, Glyph, TextLayout};
use qs_ui::row::{
    extension_start, format_mtime, format_size, kind_of, row_text_fit, truncate_middle, Columns,
    GridMetrics, IconKind, Interaction, ListRenderer, RowTextFit, ShapedRun, StateRegion,
};
use qs_ui::row_source::{
    KindId, LoadState, RowBuf, RowFlags, RowId, RowView, StubbornSource,
};
use qs_ui::scene::{FocusLightTokens, SceneBuilder};
use qs_ui::scroll::VisibleRange;
use qs_ui::selection::Selection;
use qs_ui::units::{Micros, Reading, MICRO};

const FRAME: Micros = 8_333;
const ICON_BOX_FRACTION: f64 = 0.55;
const ICON_SIZES: IconPx = IconPx {
    icon: 20,
    emblem: Some(9),
};

fn px(x: f64) -> Micros {
    (x * 1e6).round() as Micros
}

fn read(x: f64) -> Reading {
    Reading::Finite(px(x))
}

fn name(s: &str) -> String {
    String::from(s)
}

fn tokens() -> RowTokens {
    RowTokens {
        space_xs: px(2.0),
        space_sm: px(4.0),
        space_md: px(6.0),
        space_lg: px(8.0),
        space_xl: px(12.0),
        radius_row: px(6.0),
        radius_chip: px(3.0),
        ring_width: px(2.0),
        outline_width: px(1.0),
        icon_grid: px(20.0),
        emblem_fraction: px(0.45),
    }
}

fn opaque(r: f64, g: f64, b: f64) -> Srgba {
    Srgba {
        r: px(r),
        g: px(g),
        b: px(b),
        a: MICRO,
    }
}

fn scales() -> Scales {
    Scales {
        colors: vec![
            (name("base"), opaque(0.1, 0.1, 0.1)),
            (name("lift"), opaque(0.2, 0.2, 0.2)),
            (name("accent"), opaque(0.2, 0.3, 0.7)),
            (name("halo"), opaque(0.3, 0.5, 0.9)),
            (name("shadow"), opaque(0.0, 0.0, 0.0)),
        ],
        space: vec![(name("sm"), px(4.0)), (name("lg"), px(8.0))],
        radius: vec![],
        elevation: vec![(name("high"), px(6.0))],
    }
}

fn still() -> SwellDef {
    SwellDef::default()
}

fn fill(color: &str, alpha: f64) -> LayerDef {
    LayerDef::Fill {
        color: name(color),
        alpha: Some(px(alpha)),
        swell: still(),
        geometry: GeometryDef::default(),
    }
}

fn glow(color: &str, reach: &str, swell: SwellDef, offset: f64) -> LayerDef {
    LayerDef::Glow {
        color: name(color),
        to: None,
        alpha: Some(px(0.45)),
        reach: name(reach),
        swell,
        geometry: GeometryDef {
            offset: px(offset),
            ..GeometryDef::default()
        },
    }
}

fn rim(alpha: f64) -> LayerDef {
    LayerDef::Rim {
        color: name("lift"),
        alpha: Some(px(alpha)),
        width: px(1.0),
        swell: still(),
        geometry: GeometryDef::default(),
    }
}

fn lit(color: &str, alpha: f64) -> LayerDef {
    LayerDef::Pbr {
        color: name(color),
        alpha: Some(px(alpha)),
        bevel: px(2.0),
        roughness: px(0.6),
        metallic: 0,
        env: px(0.3),
        emission: px(0.2),
        emits: Some(name("halo")),
        emits_strength: px(0.5),
        swell: still(),
        phase: PhaseDef::default(),
        geometry: GeometryDef::default(),
    }
}

fn material(layers: Vec<LayerDef>) -> Material {
    let def = MaterialDef {
        layers,
        over: vec![],
        text: vec![],
        text_lit: vec![],
        description: String::new(),
        elevation: Some(name("high")),
    };
    match resolve(&def, &scales()) {
        Ok(material) => material,
        Err(missing) => panic!("{missing:?}"),
    }
}

struct Theme {
    body: Material,
    body_alt: Material,
    hover: Material,
    selected: Material,
    effects: bool,
}

fn theme() -> Theme {
    let flare = SwellDef {
        alpha: px(2.0),
        reach: px(1.5),
        width: px(1.0),
    };
    Theme {
        body: material(vec![lit("base", 0.5)]),
        body_alt: material(vec![lit("lift", 0.5)]),
        hover: material(vec![glow("halo", "sm", still(), 0.0), fill("lift", 0.6), rim(0.1)]),
        selected: material(vec![
            glow("shadow", "sm", still(), 3.0),
            glow("halo", "lg", flare, 0.0),
            lit("accent", 1.0),
            rim(0.3),
        ]),
        effects: true,
    }
}

fn looks(theme: &Theme) -> Looks<'_> {
    let allowance = Allowance {
        attenuation_floor: px(0.6),
        addition_max: px(0.2),
    };
    let look = |material| Some(Look { material, allowance });
    Looks {
        body: look(&theme.body),
        body_alt: look(&theme.body_alt),
        hover: look(&theme.hover),
        selected: look(&theme.selected),
        effects: theme.effects,
        ripple: RESTING_RIPPLE,
        shadow: (px(0.6), px(0.8)),
        focus_light: FocusLightTokens {
            height: px(40.0),
            size_deg: px(10.0),
            share: px(0.6),
            ambient: px(0.2),
        },
    }
}

/// The metrics of a plain face at `size`.
fn metrics_at(size: f64) -> FontMetrics {
    FontMetrics {
        ascent: px(size * 0.93),
        descent: px(size * 0.24),
        x_height: px(size * 0.53),
        line_height: px(size * 1.2),
    }
}

fn renderer() -> ListRenderer<u32> {
    ListRenderer::new(
        tokens(),
        FontId(0),
        vec![(400, FontId(0)), (600, FontId(1))],
    )
}

fn settled() -> InteractionMotion {
    InteractionMotion::default()
}

fn one(index: u64) -> Selection {
    let mut selection = Selection::new();
    selection.select_only(index);
    selection
}

fn many(indices: &[u64]) -> Selection {
    let mut selection = Selection::new();
    for &index in indices {
        selection.toggle(index);
    }
    selection
}

fn layout_for(rows: u64, scale: f64) -> ViewportLayout {
    let density = Density::default();
    let row_height = density.row_height_px(read(scale), read(1.0));
    ViewportLayout {
        origin_x: 0,
        origin_y: 0,
        width: 1200,
        height: row_height * rows as u32,
        scale: px(scale),
        text_scale: MICRO,
        density,
        row_height,
        scroll: 0,
        first_row_offset: 0,
        visible: VisibleRange {
            first: 0,
            count: rows as u32,
        },
        row_count: rows,
        content_height: u64::from(row_height) * rows,
        min_row_height: row_height,
        columns: 1,
    }
}

fn plain_rows(count: usize) -> RowBuf {
    let mut buf = RowBuf::new();
    for i in 0..count {
        buf.push(
            RowView {
                id: RowId(i as u64),
                kind: KindId(2),
                size: 4096,
                state: LoadState::Basic,
                ..RowView::default()
            },
            b"module.rs",
        );
    }
    buf
}

fn frame_of(
    renderer: &mut ListRenderer<u32>,
    theme: &Theme,
    buf: &RowBuf,
    layout: &ViewportLayout,
    interaction: Interaction<'_>,
    motion: &InteractionMotion,
    lights: bool,
) -> Frame {
    let substances = vec![Substance { bevel: px(1.0) }; buf.len()];
    let metrics = Some(metrics_at(13.0));
    if lights {
        renderer.render_lit(
            buf,
            &substances,
            layout,
            ICON_SIZES,
            looks(theme),
            metrics,
            interaction,
            motion,
        )
    } else {
        renderer.render(
            buf,
            &substances,
            layout,
            ICON_SIZES,
            looks(theme),
            metrics,
            interaction,
            motion,
        )
    }
}

fn draw(
    buf: &RowBuf,
    layout: &ViewportLayout,
    interaction: Interaction<'_>,
    motion: &InteractionMotion,
) -> Frame {
    frame_of(
        &mut renderer(),
        &theme(),
        buf,
        layout,
        interaction,
        motion,
        false,
    )
}

fn painted(pieces: &[Piece<String>]) -> Vec<Instance> {
    pieces
        .iter()
        .filter_map(|p| match p {
            Piece::Painted(instance) => Some(*instance),
            _ => None,
        })
        .collect()
}

fn icons(pieces: &[Piece<String>]) -> Vec<&IconPiece<String>> {
    pieces
        .iter()
        .filter_map(|p| match p {
            Piece::Icon(icon) => Some(icon),
            _ => None,
        })
        .collect()
}

fn texts(pieces: &[Piece<String>]) -> Vec<&TextPiece<String>> {
    pieces
        .iter()
        .filter_map(|p| match p {
            Piece::Text(text) => Some(text),
            _ => None,
        })
        .collect()
}

fn rings(pieces: &[Piece<String>]) -> Vec<&Piece<String>> {
    pieces
        .iter()
        .filter(|p| matches!(p, Piece::Ring { .. }))
        .collect()
}

fn alpha_of(instance: &Instance) -> Micros {
    match instance {
        Instance::Rect { color, .. } => color.a,
        Instance::Pbr { albedo, .. } => albedo.a,
        Instance::Glow { near, .. } => near.a,
        _ => panic!("{instance:?} is no body"),
    }
}

fn is_region_body(instance: &Instance) -> bool {
    matches!(instance, Instance::Rect { .. } | Instance::Pbr { .. })
}

/// The inset rounded state regions: hover, press and selection share one geometry.
fn state_regions(frame: &Frame, layout: &ViewportLayout) -> Vec<Instance> {
    let columns = Columns::for_width(i128::from(layout.width) * MICRO, layout.scale, &tokens());
    let width = StateRegion::new(&tokens(), &columns, layout).width;
    let squish = tokens().space_xs * layout.scale / MICRO;
    painted(&frame.pieces)
        .into_iter()
        .filter(|i| {
            is_region_body(i)
                && i.shape().radius > 0
                && (i.shape().w - width).abs() <= squish * 2 + px(0.5)
        })
        .collect()
}

fn glows(frame: &Frame) -> Vec<Instance> {
    painted(&frame.pieces)
        .into_iter()
        .filter(|i| matches!(i, Instance::Glow { .. }))
        .collect()
}

/// The coloured halos, and not the dark contact shadows.
fn halos(frame: &Frame) -> Vec<(Shape, Micros, Micros)> {
    glows(frame)
        .into_iter()
        .filter_map(|i| match i {
            Instance::Glow {
                shape, reach, near, ..
            } if near.b > 0 => Some((shape, reach, near.a)),
            _ => None,
        })
        .collect()
}

/// The area of a shape grown by `pad` on every side.
fn grown(shape: &Shape, pad: Micros) -> Micros {
    (shape.w + pad * 2).max(0) * (shape.h + pad * 2).max(0)
}

/// The area that is shaded for a primitive: a glow reaches out by its falloff, and every edge
/// by the pixel that it is smoothed over.
fn quad_area(instance: &Instance) -> Micros {
    match instance {
        Instance::Glow { shape, reach, .. } => grown(shape, (*reach).max(0) + MICRO),
        other => grown(&other.shape(), MICRO),
    }
}

fn run_out(motion: &mut InteractionMotion) {
    while motion.advance(FRAME) {}
}

#[test]
fn a_miller_column_spends_its_width_on_the_name() {
    let width = px(300.0);
    let list = Columns::for_rect(0, width, MICRO, &tokens());
    let column = Columns::for_column(0, width, MICRO, &tokens());

    assert!(list.name <= px(40.0), "{}", list.name);
    assert!(
        column.name > list.name * 3,
        "a column gave the name {} of {width}, barely more than the list's {}",
        column.name,
        list.name
    );
    assert_eq!(column.size, 0);
    assert_eq!(column.modified, 0);
    assert_eq!(column.kind, 0);
    assert!(!column.metadata);
    assert!(list.metadata);
}

#[test]
fn sizes_format_at_one_decimal_so_the_column_never_reflows() {
    assert_eq!(format_size(0), "0 B");
    assert_eq!(format_size(1023), "1023 B");
    assert_eq!(format_size(1024), "1.0 KB");
    assert_eq!(format_size(1536), "1.5 KB");
    assert_eq!(format_size(1024 * 1024), "1.0 MB");
    assert_eq!(format_size(u64::MAX), "16.0 EB");
}

#[test]
fn timestamps_are_fixed_width_and_locale_independent() {
    assert_eq!(format_mtime(0), "1970-01-01 00:00");
    assert_eq!(format_mtime(86_400), "1970-01-02 00:00");
    assert_eq!(format_mtime(1_786_060_800), "2026-08-07 00:00");
    assert_eq!(format_mtime(1_709_164_800), "2024-02-29 00:00");

    let width = format_mtime(0).len();
    for seconds in [0i64, 1, 1_786_060_800, -86_400] {
        assert_eq!(format_mtime(seconds).len(), width, "seconds {seconds}");
    }
}

#[test]
fn a_timestamp_from_the_listing_pipeline_is_not_1970() {
    let t = std::time::UNIX_EPOCH + std::time::Duration::from_secs(1_786_060_800);
    let secs = t
        .duration_since(std::time::UNIX_EPOCH)
        .map(|d| d.as_secs() as i64)
        .unwrap();

    let rendered = format_mtime(secs);
    assert_eq!(rendered, "2026-08-07 00:00");
    assert!(!rendered.starts_with("1970"), "{rendered}");
}

#[test]
fn a_negative_timestamp_does_not_panic() {
    let s = format_mtime(-1);
    assert!(s.starts_with("1969"), "{s}");
    assert_eq!(s, "1969-12-31 23:59");
}

#[test]
fn extensions_are_detected_only_where_they_are_real() {
    assert_eq!(extension_start("report.xlsx"), Some(6));
    assert_eq!(extension_start("archive.tar.gz"), Some(11));
    assert_eq!(
        extension_start(".gitignore"),
        None,
        "a leading dot is a name"
    );
    assert_eq!(extension_start("Makefile"), None);
    assert_eq!(extension_start("trailing."), None);
    assert_eq!(
        extension_start("a.thisisnotanextension"),
        None,
        "an over-long suffix is part of the name"
    );
}

fn fake_run(widths: &[f64], clusters: &[u32]) -> ShapedRun {
    let mut x = 0;
    let mut glyphs = Vec::new();
    for (&w, &cluster) in widths.iter().zip(clusters) {
        glyphs.push(Glyph {
            x,
            advance: px(w),
            cluster,
        });
        x += px(w);
    }
    ShapedRun { glyphs, width: x }
}

/// How wide what is left of a run is, either side of a cut.
fn sides(run: &ShapedRun, head: usize, tail: usize) -> (Micros, Micros) {
    let at = |i: usize| run.glyphs.get(i).map_or(run.width, |g| g.x);
    (at(head), run.width - at(tail))
}

#[test]
fn text_that_fits_is_not_truncated() {
    let run = fake_run(&[10.0; 5], &[0, 1, 2, 3, 4]);
    assert!(truncate_middle(&run, px(100.0), px(8.0), None).is_none());
    assert!(truncate_middle(&run, px(50.0), px(8.0), None).is_none());
}

#[test]
fn truncation_preserves_the_extension() {
    let run = fake_run(&[10.0; 11], &(0..11).collect::<Vec<_>>());
    let cut = truncate_middle(&run, px(80.0), px(8.0), Some(8)).unwrap();

    assert_eq!(cut.tail, 8, "the tail must start at the extension's dot");
    assert!(cut.head > 0, "the head must not be eaten entirely");

    let (head_w, tail_w) = sides(&run, cut.head, cut.tail);
    assert!(head_w + px(8.0) + tail_w <= px(80.0));
}

#[test]
fn an_extension_too_long_for_the_column_gives_way_rather_than_erasing_the_head() {
    let run = fake_run(&[10.0; 20], &(0..20).collect::<Vec<_>>());
    let cut = truncate_middle(&run, px(45.0), px(8.0), Some(17)).unwrap();
    let (head_w, tail_w) = sides(&run, cut.head, cut.tail);
    assert!(head_w + px(8.0) + tail_w <= px(45.0));
}

#[test]
fn a_column_too_narrow_for_even_the_ellipsis_draws_nothing_rather_than_overflowing() {
    let run = fake_run(&[10.0; 10], &(0..10).collect::<Vec<_>>());
    let cut = truncate_middle(&run, px(4.0), px(8.0), None).unwrap();
    assert_eq!(cut.head, 0);
    assert_eq!(cut.tail, run.glyphs.len());

    let drawn = draw_text("0123456789", &run, px(8.0), 0, px(4.0), true).unwrap();
    assert_eq!(drawn.head, 0);
    assert_eq!(drawn.ellipsis, None);
    assert_eq!(drawn.tail, run.glyphs.len());
}

#[test]
fn cuts_land_on_cluster_boundaries() {
    let run = fake_run(
        &[10.0, 10.0, 10.0, 0.0, 10.0, 0.0, 10.0, 10.0],
        &[0, 1, 2, 3, 3, 3, 6, 7],
    );

    let cut = truncate_middle(&run, px(46.0), px(8.0), Some(7)).unwrap();

    assert!(cut.head > 0, "the head must not be eaten entirely");
    if cut.head < run.glyphs.len() {
        assert_ne!(
            run.glyphs[cut.head].cluster,
            run.glyphs[cut.head - 1].cluster,
            "the cut split a cluster in half"
        );
    }
}

#[test]
fn a_tail_never_starts_inside_a_cluster() {
    let run = fake_run(&[10.0; 6], &[0, 1, 2, 3, 3, 3]);
    let cut = truncate_middle(&run, px(20.0), px(8.0), Some(3)).unwrap();
    assert_eq!(cut.tail, run.glyphs.len());

    let cut = truncate_middle(&run, px(55.0), px(8.0), Some(3)).unwrap();
    assert_eq!(cut.tail, 3);
}

#[test]
fn a_cut_text_is_drawn_as_its_head_and_its_shifted_tail() {
    let run = fake_run(&[10.0; 11], &(0..11).collect::<Vec<_>>());
    let layout = TextLayout {
        x: px(100.0),
        head: 2,
        ellipsis: Some(px(120.0)),
        tail: 9,
        tail_x: px(38.0),
    };
    assert_eq!(
        glyph_pens(&run, &layout),
        vec![
            (0, px(100.0)),
            (1, px(110.0)),
            (9, px(128.0)),
            (10, px(138.0)),
        ]
    );

    let whole = draw_text("0123456789a", &run, px(8.0), px(5.0), px(200.0), true).unwrap();
    let pens = glyph_pens(&run, &whole);
    assert_eq!(pens.len(), 11);
    assert_eq!(pens[10], (10, px(105.0)));

    let cut = draw_text("01234567.ab", &run, px(8.0), 0, px(80.0), true).unwrap();
    let pens = glyph_pens(&run, &cut);
    assert_eq!(pens.len(), cut.head + run.glyphs.len() - cut.tail);
    assert_eq!(pens[cut.head], (8, cut.ellipsis.unwrap() + px(8.0)));
}

#[test]
fn the_head_never_overflows_its_budget_by_a_glyph() {
    let run = fake_run(&[10.0; 12], &(0..12).collect::<Vec<_>>());
    for max in [15.0, 25.0, 37.0, 44.0, 61.0, 88.0] {
        let Some(cut) = truncate_middle(&run, px(max), px(8.0), None) else {
            continue;
        };
        let (head_w, tail_w) = sides(&run, cut.head, cut.tail);
        assert!(
            head_w + px(8.0) + tail_w <= px(max),
            "max {max}: head {head_w} + ellipsis + tail {tail_w} overflows"
        );
    }
}

#[test]
fn every_gap_and_pad_comes_from_the_space_scale() {
    let scale = [2.0, 4.0, 6.0, 8.0, 12.0, 16.0, 24.0, 32.0];
    let c = Columns::for_width(px(1920.0), MICRO, &tokens());

    for (name, value) in [
        ("gutter", c.gutter),
        ("padding", c.padding),
        ("gap", c.gap),
        ("rail", c.rail),
    ] {
        assert!(
            scale.iter().any(|&s| px(s) == value),
            "{name} = {value} is not a step on the space scale {scale:?}"
        );
    }
}

#[test]
fn the_selection_region_is_inset_from_both_edges() {
    let width = px(1920.0);
    let c = Columns::for_width(width, MICRO, &tokens());

    assert!(c.content_x() > 0, "the region must not start at the edge");
    assert!(
        c.content_x() + c.content_width(width) < width,
        "the region must not reach the right edge"
    );
    let right_gap = width - (c.content_x() + c.content_width(width));
    assert_eq!(right_gap, c.content_x());
}

#[test]
fn a_row_is_at_least_a_24px_pointer_target() {
    assert!(Density::Compact.row_height_px(read(1.0), read(1.0)) >= 24);
    assert!(Density::Default.row_height_px(read(1.0), read(1.0)) >= 24);
}

#[test]
fn hover_and_focus_are_distinct_states_from_selection() {
    let f = RowFlags::focused();
    assert!(!f.contains(RowFlags::selected()));
    assert!(!f.contains(RowFlags::hovered()));
    let both = RowFlags::focused() | RowFlags::selected();
    assert!(both.contains(RowFlags::focused()) && both.contains(RowFlags::selected()));
}

#[test]
fn columns_never_go_negative_on_a_narrow_window() {
    for width in [1.0, 50.0, 200.0, 400.0, 1920.0, 3840.0] {
        let c = Columns::for_width(px(width), MICRO, &tokens());
        assert!(
            c.name > 0,
            "width {width} produced a name column of {}",
            c.name
        );
        assert!(c.name_x() > 0);
        assert!(c.size_x() > c.name_x());
        assert!(c.kind_x() > c.modified_x());
    }
}

#[test]
fn columns_scale_with_the_device_pixel_ratio() {
    let at_1x = Columns::for_width(px(1920.0), px(1.0), &tokens());
    let at_2x = Columns::for_width(px(3840.0), px(2.0), &tokens());
    assert_eq!(at_2x.icon, at_1x.icon * 2);
    assert_eq!(at_2x.padding, at_1x.padding * 2);
}

fn fit_at(density: Density, scale: f64, text_scale: f64) -> RowTextFit {
    let m = metrics_at(13.0 * scale * text_scale);
    row_text_fit(
        density.row_height_px(read(scale), read(text_scale)),
        m.ascent,
        m.descent,
        m.x_height,
    )
}

#[test]
fn text_fits_inside_its_row_at_every_scale_including_two_hundred_percent() {
    let lowest = MIN_TEXT_SCALE as f64 / 1e6;
    let highest = MAX_TEXT_SCALE as f64 / 1e6;
    for density in [Density::Compact, Density::Default] {
        for scale in [1.0, 1.25, 1.5, 1.75, 2.0, 2.5, 3.0] {
            for text in [lowest, 1.0, 1.15, 1.5, 2.0, 2.5, highest] {
                let fit = fit_at(density, scale, text);
                assert!(
                    !fit.clips(),
                    "{density:?} at scale {scale} and text scale {text}: {fit:?}"
                );
            }
        }
    }
}

#[test]
fn a_row_that_ignores_the_text_scale_clips_and_the_check_says_so() {
    let text_scale = 2.0;
    let m = metrics_at(13.0 * text_scale);

    let frozen = Density::Default.row_height_px(read(1.0), read(1.0));
    let broken = row_text_fit(frozen, m.ascent, m.descent, m.x_height);
    assert!(broken.clips(), "{broken:?}");
    assert!(
        broken.headroom_above < 0,
        "the ascender is what optical centring sacrifices first: {broken:?}"
    );

    let correct = Density::Default.row_height_px(read(1.0), read(text_scale));
    let fit = row_text_fit(correct, m.ascent, m.descent, m.x_height);
    assert!(!fit.clips(), "{correct} px is the shipped height: {fit:?}");
}

#[test]
fn the_fit_measurement_is_the_baseline_the_renderer_draws_on() {
    for density in [Density::Compact, Density::Default] {
        for text_scale in [1.0, 2.0] {
            let mut layout = layout_for(1, 1.0);
            layout.density = density;
            layout.text_scale = px(text_scale);
            layout.row_height = density.row_height_px(read(1.0), read(text_scale));

            let mut renderer = renderer();
            let m = metrics_at(13.0 * text_scale);
            let buf = plain_rows(1);
            let theme = theme();
            let frame = renderer.render(
                &buf,
                &vec![Substance { bevel: 0 }],
                &layout,
                ICON_SIZES,
                looks(&theme),
                Some(m),
                Interaction::default(),
                &settled(),
            );

            let expected = row_text_fit(layout.row_height, m.ascent, m.descent, m.x_height);
            assert_eq!(renderer.last_text_fit(), Some(expected));
            let lines = texts(&frame.pieces);
            assert!(!lines.is_empty(), "no text was drawn");
            for line in lines {
                assert_eq!(line.baseline, expected.baseline);
            }
        }
    }
}

#[test]
fn the_fit_arithmetic_is_the_optically_centred_baseline() {
    let fit = row_text_fit(28, px(14.0), px(3.3), px(7.0));
    assert_eq!(fit.baseline, px(17.5), "(28 + 7) / 2");
    assert_eq!(fit.headroom_above, px(3.5));
    assert_eq!(fit.headroom_below, px(7.2));
    assert!(!fit.clips());

    let tight = row_text_fit(12, px(14.0), px(3.3), px(7.0));
    assert!(tight.clips());
    assert!(tight.tightest() < 0);
}

#[test]
fn a_hovered_row_draws_a_wash_whose_opacity_follows_the_animation() {
    let buf = plain_rows(6);
    let layout = layout_for(6, 1.0);
    let interaction = Interaction {
        hovered: Some(2),
        ..Interaction::default()
    };

    let mut motion = InteractionMotion::new(MotionPreference::Full);
    motion.sync(interaction);
    let opening = state_regions(&draw(&buf, &layout, interaction, &motion), &layout);
    assert!(opening.is_empty() || alpha_of(&opening[0]) == 0);

    motion.advance(px(0.040));
    let midway = state_regions(&draw(&buf, &layout, interaction, &motion), &layout);
    assert_eq!(midway.len(), 1, "expected exactly one hover wash");
    let partial = alpha_of(&midway[0]);

    run_out(&mut motion);
    let settled = state_regions(&draw(&buf, &layout, interaction, &motion), &layout);
    assert_eq!(settled.len(), 1);
    let full = alpha_of(&settled[0]);

    assert!(
        partial > 0 && partial < full,
        "hover opacity went {partial} midway and {full} settled"
    );
    let top = layout.row_top(2);
    assert!((settled[0].shape().y - top).abs() <= i128::from(layout.row_height) * MICRO);
}

#[test]
fn a_press_deepens_the_row_instead_of_replacing_its_hover() {
    let buf = plain_rows(4);
    let layout = layout_for(4, 1.0);
    let interaction = Interaction {
        hovered: Some(1),
        pressed: Some(1),
        ..Interaction::default()
    };
    let mut motion = InteractionMotion::new(MotionPreference::Full);
    motion.sync(interaction);
    run_out(&mut motion);

    let regions = state_regions(&draw(&buf, &layout, interaction, &motion), &layout);
    assert_eq!(
        regions.len(),
        2,
        "a pressed row should draw the hover wash and the press wash, not one of them"
    );
    assert_eq!(
        regions[0].shape(),
        regions[1].shape(),
        "the two washes must be exactly coincident"
    );

    let hovered_only = Interaction {
        hovered: Some(1),
        ..Interaction::default()
    };
    let mut resting_motion = InteractionMotion::new(MotionPreference::Full);
    resting_motion.sync(hovered_only);
    run_out(&mut resting_motion);
    let resting = state_regions(
        &draw(&buf, &layout, hovered_only, &resting_motion),
        &layout,
    );
    assert!(regions[0].shape().w < resting[0].shape().w);
}

#[test]
fn the_selection_region_travels_between_the_two_rows_during_a_morph() {
    let buf = plain_rows(8);
    let layout = layout_for(8, 1.0);
    let selection = one(6);
    let interaction = Interaction::with_selection(&selection);

    let mut motion = InteractionMotion::new(MotionPreference::Full);
    motion.set_selected(Some(2));
    run_out(&mut motion);
    motion.set_selected(Some(6));
    motion.advance(px(0.060));

    let regions = state_regions(&draw(&buf, &layout, interaction, &motion), &layout);
    assert_eq!(regions.len(), 1, "a morph is one region, not a cross-fade");

    let y = regions[0].shape().y;
    let (from, to) = (layout.row_top(2), layout.row_top(6));
    assert!(y > from && y < to, "{y} is outside the span {from}..{to}");

    let mut rested = InteractionMotion::new(MotionPreference::Full);
    rested.sync(interaction);
    run_out(&mut rested);
    let at_rest = draw(&buf, &layout, interaction, &rested);
    assert_eq!(
        alpha_of(&regions[0]),
        alpha_of(&state_regions(&at_rest, &layout)[0]),
        "a geometry morph must not also fade"
    );
}

#[test]
fn a_multiple_selection_draws_a_region_per_selected_row_and_no_morph() {
    let buf = plain_rows(8);
    let layout = layout_for(8, 1.0);
    let mut selection = Selection::new();
    selection.select_only(1);
    selection.range_to(3);
    let interaction = Interaction::with_selection(&selection);

    let mut motion = InteractionMotion::new(MotionPreference::Full);
    motion.set_selected(Some(6));
    motion.advance(px(0.060));

    let regions = state_regions(&draw(&buf, &layout, interaction, &motion), &layout);
    assert_eq!(regions.len(), 3, "one region per selected row");
    for (region, row) in regions.iter().zip(1..=3) {
        let (top, bottom) = (layout.row_top(row), layout.row_top(row + 1));
        let y = region.shape().y;
        assert!(
            y >= top && y < bottom,
            "the region for row {row} sat at {y}, outside its band {top}..{bottom}"
        );
    }
}

#[test]
fn a_selection_reaching_past_the_viewport_draws_only_what_is_on_screen() {
    let buf = plain_rows(8);
    let layout = layout_for(8, 1.0);
    let mut selection = Selection::new();
    selection.select_all(1_000_000);
    let interaction = Interaction::with_selection(&selection);

    let regions = state_regions(&draw(&buf, &layout, interaction, &settled()), &layout);
    assert_eq!(regions.len(), buf.len());
}

#[test]
fn the_selection_region_is_drawn_beneath_every_row_of_content() {
    let buf = plain_rows(8);
    let layout = layout_for(8, 1.0);
    let selection = one(6);
    let interaction = Interaction::with_selection(&selection);
    let mut motion = InteractionMotion::new(MotionPreference::Full);
    motion.set_selected(Some(2));
    run_out(&mut motion);
    motion.set_selected(Some(6));
    motion.advance(px(0.060));

    let frame = draw(&buf, &layout, interaction, &motion);
    let last_region = frame
        .pieces
        .iter()
        .rposition(|p| matches!(p, Piece::Painted(_)))
        .unwrap();
    let first_content = frame
        .pieces
        .iter()
        .position(|p| matches!(p, Piece::Text(_) | Piece::Icon(_)))
        .unwrap();
    assert!(last_region < first_content);
}

#[test]
fn the_selection_halo_flares_while_the_region_is_moving_and_settles_when_it_lands() {
    let buf = plain_rows(20);
    let layout = layout_for(20, 1.0);
    let selection = one(12);
    let interaction = Interaction::with_selection(&selection);

    let mut motion = InteractionMotion::new(MotionPreference::Full);
    motion.set_selected(Some(4));
    run_out(&mut motion);
    motion.set_selected(Some(12));
    assert!(motion.is_animating(), "nothing to measure");

    let moving = halos(&draw(&buf, &layout, interaction, &motion));
    run_out(&mut motion);
    let landed = halos(&draw(&buf, &layout, interaction, &motion));

    assert_eq!(moving.len(), 1, "one selected row, one halo");
    assert_eq!(landed.len(), 1);
    assert!(
        moving[0].1 * 10 > landed[0].1 * 13,
        "the drive is not reaching the material"
    );
    assert!(moving[0].2 > landed[0].2);
}

#[test]
fn under_reduced_motion_the_halo_never_flares() {
    let buf = plain_rows(20);
    let layout = layout_for(20, 1.0);
    let selection = one(12);
    let interaction = Interaction::with_selection(&selection);

    let mut reduced = InteractionMotion::new(MotionPreference::Reduced);
    reduced.set_selected(Some(4));
    reduced.set_selected(Some(12));
    assert!(!reduced.is_animating(), "a reduced plan opened a ticket");
    let under_reduced = halos(&draw(&buf, &layout, interaction, &reduced));

    let mut full = InteractionMotion::new(MotionPreference::Full);
    full.set_selected(Some(12));
    run_out(&mut full);
    let settled = halos(&draw(&buf, &layout, interaction, &full));

    assert_eq!(under_reduced.len(), 1);
    assert_eq!(under_reduced, settled);
}

#[test]
fn a_selected_row_carries_a_halo_on_exactly_the_shape_of_its_region() {
    let buf = plain_rows(6);
    let layout = layout_for(6, 1.0);
    let selection = one(3);
    let interaction = Interaction::with_selection(&selection);
    let mut motion = InteractionMotion::new(MotionPreference::Full);
    motion.set_selected(Some(3));
    run_out(&mut motion);

    let frame = draw(&buf, &layout, interaction, &motion);
    let halos = halos(&frame);
    assert_eq!(halos.len(), 1, "expected one halo for one selected row");

    let regions = state_regions(&frame, &layout);
    let region = regions.last().unwrap();
    assert_eq!(halos[0].0, region.shape());
    assert!(halos[0].1 > 0, "the halo has no falloff");
}

#[test]
fn every_halo_is_drawn_before_every_fill_and_not_row_by_row() {
    let buf = plain_rows(8);
    let layout = layout_for(8, 1.0);
    let selection = many(&[2, 3, 4]);
    let interaction = Interaction::with_selection(&selection);

    let frame = draw(&buf, &layout, interaction, &settled());
    let painted = painted(&frame.pieces);
    let last_halo = painted
        .iter()
        .rposition(|i| matches!(i, Instance::Glow { .. }))
        .unwrap();
    assert_eq!(state_regions(&frame, &layout).len(), 3);
    let first_fill = painted
        .iter()
        .position(|i| is_region_body(i) && i.shape().radius > 0)
        .unwrap();
    assert!(last_halo < first_fill);
}

#[test]
fn the_halo_is_not_drawn_when_the_platform_has_asked_for_no_effects() {
    let buf = plain_rows(4);
    let layout = layout_for(4, 1.0);
    let selection = many(&[1, 2]);
    let interaction = Interaction::with_selection(&selection);
    let mut plain = theme();
    plain.effects = false;

    let frame = frame_of(
        &mut renderer(),
        &plain,
        &buf,
        &layout,
        interaction,
        &settled(),
        false,
    );
    assert!(glows(&frame).is_empty());
    assert!(!state_regions(&frame, &layout).is_empty());
}

#[test]
fn the_halo_costs_a_measured_amount_of_overdraw_and_not_an_assumed_one() {
    let rows = 40u64;
    let buf = plain_rows(rows as usize);
    let layout = layout_for(rows, 1.0);
    let selection = many(&(0..rows).collect::<Vec<_>>());
    let interaction = Interaction {
        hovered: Some(7),
        pressed: Some(7),
        focused: Some(7),
        ..Interaction::with_selection(&selection)
    };
    let mut motion = InteractionMotion::new(MotionPreference::Full);
    motion.sync(interaction);
    run_out(&mut motion);

    let frame = draw(&buf, &layout, interaction, &motion);
    let painted = painted(&frame.pieces);
    let glow_fill: Micros = glows(&frame).iter().map(quad_area).sum();
    let painted_fill: Micros = painted.iter().map(quad_area).sum();
    let shape_fill: Micros = frame
        .pieces
        .iter()
        .filter_map(|p| match p {
            Piece::Block { shape, .. } | Piece::Ring { shape, .. } => Some(grown(shape, MICRO)),
            Piece::Icon(icon) => Some(icon.w * icon.h),
            _ => None,
        })
        .sum();
    let total = painted_fill + shape_fill;

    // Hover and press are one wash driven twice, so the row under both has one halo.
    let mut halos = halos(&frame);
    let shadows = glows(&frame).len() - halos.len();
    halos.dedup();
    assert_eq!(
        halos.len(),
        rows as usize + 1,
        "one halo per selected row, plus the hovered row's own"
    );
    assert_eq!(
        shadows, rows as usize,
        "one contact shadow per selected row"
    );
    assert!(
        glow_fill < total - glow_fill,
        "the halo layer ({glow_fill}) costs more fill than everything else ({})",
        total - glow_fill
    );
}

#[test]
fn the_surface_primitive_budget_holds_in_the_worst_case() {
    let rows = 40u64;
    let buf = plain_rows(rows as usize);
    let layout = layout_for(rows, 1.0);
    let selection = many(&(0..rows).collect::<Vec<_>>());
    let interaction = Interaction {
        hovered: Some(7),
        pressed: Some(7),
        focused: Some(7),
        ..Interaction::with_selection(&selection)
    };
    let mut motion = InteractionMotion::new(MotionPreference::Full);
    motion.sync(interaction);
    run_out(&mut motion);
    let list = draw(&buf, &layout, interaction, &motion).pieces;

    let metrics = grid_metrics(1200, 120.0, 1.0);
    let grid = grid_layout(rows, metrics, 800);
    let cells = plain_rows(grid.visible.count as usize);
    let grid_pieces = grid_of(&cells, &grid, metrics, interaction, &motion);

    for (view, pieces, layout) in [("list", &list, &layout), ("grid", &grid_pieces, &grid)] {
        let prims = pieces
            .iter()
            .filter(|p| {
                matches!(
                    p,
                    Piece::Painted(_) | Piece::Block { .. } | Piece::Ring { .. }
                )
            })
            .count() as u32;
        assert!(
            prims <= layout.surface_prim_bound(),
            "the {view} pass emitted {prims} against a bound of {}",
            layout.surface_prim_bound()
        );
        assert!(prims * 2 > layout.visible.count * SURFACE_PRIMS_PER_ENTRY);
    }
}

#[test]
fn under_reduced_motion_the_selection_is_fully_painted_on_the_first_frame() {
    let buf = plain_rows(6);
    let layout = layout_for(6, 1.0);
    let selection = one(4);
    let interaction = Interaction::with_selection(&selection);
    let mut motion = InteractionMotion::new(MotionPreference::Reduced);
    motion.sync(interaction);
    assert!(!motion.is_animating());

    let regions = state_regions(&draw(&buf, &layout, interaction, &motion), &layout);
    assert_eq!(regions.len(), 1);
    assert!(
        (regions[0].shape().y - layout.row_top(4)).abs() < i128::from(layout.row_height) * MICRO
    );
    assert!(
        alpha_of(&regions[0]) > 0,
        "the region was drawn transparent"
    );
}

#[test]
fn a_stub_never_reads_its_kind() {
    let stub = RowView {
        kind: KindId(5),
        state: LoadState::Stub,
        ..RowView::default()
    };
    assert_eq!(kind_of(&stub), IconKind::Generic);

    let mut dir_stub = stub.clone();
    dir_stub.flags = RowFlags::dir();
    assert_eq!(kind_of(&dir_stub), IconKind::Folder);
}

fn symlink_rows(rows: usize, nth: usize) -> RowBuf {
    let mut buf = RowBuf::new();
    for i in 0..rows {
        let flags = if nth > 0 && i % nth == 0 {
            RowFlags::symlink()
        } else {
            RowFlags::empty()
        };
        buf.push(
            RowView {
                kind: KindId(2),
                flags,
                state: LoadState::Basic,
                ..RowView::default()
            },
            b"link.rs",
        );
    }
    buf
}

fn square(side: u32) -> AtlasEntry {
    AtlasEntry {
        width: side,
        height: side,
        left: 0,
        top: 0,
        uv: Uv {
            u0: 0,
            v0: 0,
            u1: MICRO,
            v1: MICRO,
        },
    }
}

#[test]
fn a_symlink_carries_two_emblem_quads_and_a_plain_row_carries_none() {
    let layout = layout_for(8, 1.0);
    let emblems = |buf: &RowBuf| {
        icons(&draw(buf, &layout, Interaction::default(), &settled()).pieces)
            .iter()
            .map(|icon| {
                icon.quads(square(20), Some(square(9)), Some(square(9)))
                    .len()
                    - 1
            })
            .sum::<usize>()
    };
    assert_eq!(emblems(&symlink_rows(8, 2)), 8);
    assert_eq!(emblems(&symlink_rows(8, 0)), 0);
}

#[test]
fn the_emblem_sits_in_the_icons_bottom_left_corner() {
    let layout = layout_for(1, 1.0);
    let frame = draw(
        &symlink_rows(1, 1),
        &layout,
        Interaction::default(),
        &settled(),
    );
    let quads = icons(&frame.pieces)[0].quads(square(20), Some(square(9)), Some(square(9)));
    assert_eq!(quads.len(), 3);
    for emblem in &quads[1..] {
        assert_eq!(emblem.x, quads[0].x);
        assert_eq!(emblem.y + emblem.h, quads[0].y + quads[0].h);
    }
}

#[test]
fn an_icon_too_small_for_an_emblem_skips_it_rather_than_dropping_it() {
    let mut renderer = renderer();
    renderer.begin_frame(IconPx { icon: 9, emblem: None });
    let found = renderer.emblem_entry(Emblem::Plate, |_| panic!("there is no size to ask for"));
    assert_eq!(found, None);
    assert_eq!(renderer.icons_dropped(), 0);
}

#[test]
fn an_icon_that_the_atlas_has_no_room_for_is_counted() {
    let mut renderer = renderer();
    renderer.begin_frame(ICON_SIZES);
    assert_eq!(renderer.icon_entry(IconKind::Code, |_| None), None);
    assert_eq!(renderer.icons_dropped(), 1);
}

#[test]
fn the_grid_emblems_a_symlink_exactly_as_the_list_does() {
    let metrics = grid_metrics(1200, 120.0, 1.0);
    let layout = grid_layout(40, metrics, 720);
    let buf = symlink_rows(layout.visible.count as usize, 2);
    let pieces = grid_of(
        &buf,
        &layout,
        metrics,
        Interaction::default(),
        &settled(),
    );
    for (row, icon) in buf.rows().iter().zip(icons(&pieces)) {
        assert_eq!(
            icon.emblem.is_some(),
            row.flags.contains(RowFlags::symlink())
        );
    }
}

fn folders_and_a_file() -> RowBuf {
    let mut buf = RowBuf::new();
    for (name, is_dir) in [("src", true), ("docs", true), ("main.rs", false)] {
        buf.push(
            RowView {
                flags: if is_dir {
                    RowFlags::dir()
                } else {
                    RowFlags::empty()
                },
                state: LoadState::Basic,
                ..RowView::default()
            },
            name.as_bytes(),
        );
    }
    buf
}

fn frame_with_marks(buf: &RowBuf, marks: &SessionMarks) -> Vec<Piece<String>> {
    draw(
        buf,
        &layout_for(buf.len() as u64, 1.0),
        Interaction {
            marks: Some(marks),
            ..Interaction::default()
        },
        &settled(),
    )
    .pieces
}

fn rails(pieces: &[Piece<String>]) -> Vec<Token> {
    let columns = Columns::for_width(px(1200.0), MICRO, &tokens());
    pieces
        .iter()
        .filter_map(|p| match p {
            Piece::Block { shape, tint } if shape.x == columns.rail_x() => Some(tint.token),
            _ => None,
        })
        .collect()
}

fn marked(index: u64, mark: SessionMark) -> SessionMarks {
    let mut marks = SessionMarks::new();
    marks.insert(index, mark);
    marks
}

#[test]
fn a_folder_with_no_sessions_draws_nothing_extra_at_all() {
    let buf = folders_and_a_file();
    let without = draw(&buf, &layout_for(3, 1.0), Interaction::default(), &settled()).pieces;
    assert_eq!(without, frame_with_marks(&buf, &no_marks()));
    assert_eq!(without, frame_with_marks(&buf, &SessionMarks::new()));
}

#[test]
fn a_marked_folder_draws_its_count_and_an_unmarked_one_beside_it_does_not() {
    let buf = folders_and_a_file();
    let bare = frame_with_marks(&buf, &no_marks());
    let marks = marked(0, SessionMark::new(2, true, None).unwrap());
    let pieces = frame_with_marks(&buf, &marks);
    assert_eq!(texts(&pieces).len(), texts(&bare).len() + 1);
    assert_eq!(
        texts(&pieces)
            .iter()
            .filter(|t| t.text == "2 sessions")
            .count(),
        1
    );
}

#[test]
fn a_summons_flash_draws_in_the_rail_slot_and_a_finished_one_draws_nothing() {
    let buf = folders_and_a_file();
    let mark = || SessionMark::new(2, true, None).unwrap();
    let quiet = frame_with_marks(&buf, &marked(0, mark()));

    let flashing = marked(0, mark().with_arrival(Some(px(0.8))));
    let flashed = frame_with_marks(&buf, &flashing);
    assert_eq!(rails(&quiet), vec![]);
    assert_eq!(
        flashed.len(),
        quiet.len() + 1,
        "the flash is exactly one rect in the reserved slot"
    );
    assert_eq!(rails(&flashed), vec![Token::Focus]);

    let finished = marked(0, mark().with_arrival(Some(0)));
    assert_eq!(frame_with_marks(&buf, &finished), quiet);
}

#[test]
fn an_outcome_rail_outranks_the_summons_flash() {
    let buf = folders_and_a_file();
    let marks = marked(
        0,
        SessionMark::new(2, true, Some("rail/conflict"))
            .unwrap()
            .with_arrival(Some(px(0.8))),
    );
    assert_eq!(
        rails(&frame_with_marks(&buf, &marks)),
        vec![Token::Rail("rail/conflict")],
        "the flash stacked under an outcome rail"
    );
}

#[test]
fn a_file_row_keeps_its_size_column_even_when_something_marks_its_index() {
    let buf = folders_and_a_file();
    let marks = marked(2, SessionMark::new(9, true, None).unwrap());
    assert_eq!(
        frame_with_marks(&buf, &no_marks()),
        frame_with_marks(&buf, &marks)
    );
}

#[test]
fn the_count_is_muted_when_no_shell_vouched_for_being_there() {
    let buf = folders_and_a_file();
    let ink_of = |vouched: bool| {
        let marks = marked(0, SessionMark::new(2, vouched, None).unwrap());
        let pieces = frame_with_marks(&buf, &marks);
        let lines = texts(&pieces);
        let count = lines.iter().find(|t| t.text == "2 sessions").unwrap();
        count.tint.token
    };
    assert_eq!(ink_of(true), Token::Secondary);
    assert_eq!(ink_of(false), Token::Tertiary);
}

#[test]
fn only_an_outcome_draws_a_rail_and_a_live_shell_draws_none() {
    let buf = folders_and_a_file();
    let alive = marked(0, SessionMark::new(3, true, None).unwrap());
    assert_eq!(rails(&frame_with_marks(&buf, &alive)), vec![]);

    for token in ["rail/added", "rail/conflict"] {
        let marks = marked(1, SessionMark::new(1, true, Some(token)).unwrap());
        assert_eq!(
            rails(&frame_with_marks(&buf, &marks)),
            vec![Token::Rail(token)]
        );
    }
}

#[test]
fn a_stub_directory_is_never_marked_however_it_is_asked() {
    let mut buf = RowBuf::new();
    buf.push(
        RowView {
            flags: RowFlags::dir(),
            state: LoadState::Stub,
            ..RowView::default()
        },
        b"src",
    );
    let marks = marked(0, SessionMark::new(4, true, Some("rail/conflict")).unwrap());
    assert_eq!(
        frame_with_marks(&buf, &no_marks()),
        frame_with_marks(&buf, &marks),
        "a stub drew an indicator"
    );
}

#[test]
fn the_indicator_does_not_touch_the_folder_icon() {
    let buf = folders_and_a_file();
    let bare = frame_with_marks(&buf, &no_marks());
    let marks = marked(0, SessionMark::new(2, true, Some("rail/conflict")).unwrap());
    let pieces = frame_with_marks(&buf, &marks);
    assert_eq!(icons(&bare), icons(&pieces));
    assert_eq!(icons(&bare)[0].kind, IconKind::Folder);
}

#[test]
fn a_folder_is_tinted_from_its_own_token_and_never_from_the_focus_ring() {
    assert_ne!(Token::Folder.name(), Token::Focus.name());
    let dir = RowView {
        flags: RowFlags::dir(),
        state: LoadState::Basic,
        ..RowView::default()
    };
    assert_eq!(icon_tint(&dir), Token::Folder);
    assert_eq!(Token::Folder.name(), "icon/folder");

    let file = RowView {
        state: LoadState::Basic,
        ..RowView::default()
    };
    assert_eq!(icon_tint(&file), Token::Tertiary);
    assert_eq!(Token::Tertiary.name(), "content/tertiary");

    let mut buf = RowBuf::new();
    buf.push(dir, b"src");
    let frame = draw(
        &buf,
        &layout_for(1, 1.0),
        Interaction::default(),
        &settled(),
    );
    assert_eq!(icons(&frame.pieces)[0].tint.token, Token::Folder);
}

#[test]
fn a_directory_is_a_folder_whatever_its_extension_says() {
    let row = RowView {
        kind: KindId(2),
        flags: RowFlags::dir(),
        state: LoadState::Basic,
        ..RowView::default()
    };
    assert_eq!(kind_of(&row), IconKind::Folder);
}

fn icon_rows() -> RowBuf {
    let mut buf = RowBuf::new();
    let spec = [
        (1, RowFlags::dir(), LoadState::Basic),
        (1, RowFlags::dir(), LoadState::Basic),
        (2, RowFlags::empty(), LoadState::Basic),
        (3, RowFlags::empty(), LoadState::Basic),
        (4, RowFlags::empty(), LoadState::Basic),
        (5, RowFlags::empty(), LoadState::Basic),
        (6, RowFlags::empty(), LoadState::Basic),
        (7, RowFlags::empty(), LoadState::Basic),
        (8, RowFlags::empty(), LoadState::Basic),
        (9, RowFlags::empty(), LoadState::Basic),
        (0, RowFlags::hidden(), LoadState::Basic),
        (5, RowFlags::empty(), LoadState::Stub),
    ];
    for (index, &(kind, flags, state)) in spec.iter().enumerate() {
        buf.push(
            RowView {
                id: RowId(index as u64),
                kind: KindId(kind),
                size: 1024 * (index as u64 + 1) * 37,
                flags,
                state,
                ..RowView::default()
            },
            format!("entry-{index}.rs").as_bytes(),
        );
    }
    buf
}

#[test]
fn every_row_draws_exactly_one_icon_and_it_is_a_glyph_primitive() {
    let buf = icon_rows();
    let frame = draw(
        &buf,
        &layout_for(buf.len() as u64, 1.0),
        Interaction::default(),
        &settled(),
    );
    let found = icons(&frame.pieces);
    assert_eq!(found.len(), buf.len());
    for (row, icon) in buf.rows().iter().zip(found) {
        assert_eq!(icon.kind, kind_of(row));
        let quads = icon.quads(square(20), None, None);
        assert_eq!((quads[0].w, quads[0].h), (px(20.0), px(20.0)));
    }
}

#[test]
fn a_text_pass_that_forgets_to_flush_is_caught_rather_than_silently_short() {
    let mut renderer = renderer();
    let tint = icons(
        &draw(
            &plain_rows(1),
            &layout_for(1, 1.0),
            Interaction::default(),
            &settled(),
        )
        .pieces,
    )[0]
    .tint;
    assert_eq!(renderer.emit_glyph(1, 0, px(20.0), None, tint), None);
    assert_eq!(renderer.waiting().len(), 1);
    assert_eq!(
        renderer.take_uploads(),
        1,
        "a pass ended with parked glyphs and take_uploads accepted it"
    );
}

#[test]
fn a_waiting_glyph_is_drawn_once_the_atlas_has_it_and_counted_where_it_has_not() {
    let mut renderer = renderer();
    let tint = icons(
        &draw(
            &plain_rows(1),
            &layout_for(1, 1.0),
            Interaction::default(),
            &settled(),
        )
        .pieces,
    )[0]
    .tint;
    let _ = renderer.emit_glyph(1, 0, px(20.0), None, tint);
    let _ = renderer.emit_glyph(2, px(8.0), px(20.0), None, tint);
    let drawn = renderer.flush_text(&vec![Some(square(7)), None]);
    assert_eq!(drawn.len(), 1);
    assert_eq!(renderer.glyphs_dropped(), 1);
    assert_eq!(renderer.take_uploads(), 0);
}

#[test]
fn icons_are_rasterized_once_per_kind_per_frame_not_once_per_row() {
    let buf = icon_rows();
    let mut renderer = renderer();
    renderer.begin_frame(ICON_SIZES);
    let mut asked = Vec::new();
    for row in buf.rows() {
        let found = renderer.icon_entry(kind_of(row), |key| {
            asked.push(key);
            Some(square(20))
        });
        assert_eq!(found, Some(square(20)));
    }
    let mut kinds: Vec<usize> = buf.rows().iter().map(|r| kind_of(r).index()).collect();
    kinds.sort_unstable();
    kinds.dedup();
    assert_eq!(asked.len(), kinds.len());
}

#[test]
fn a_scale_change_rasterizes_a_new_icon_rather_than_scaling_the_old_bitmap() {
    let mut renderer = renderer();
    let mut asked: Vec<IconKey> = Vec::new();
    for px in [20, 40] {
        renderer.begin_frame(IconPx { icon: px, emblem: Some(px / 2) });
        let _ = renderer.icon_entry(IconKind::Code, |key| {
            asked.push(key);
            Some(square(u32::from(px)))
        });
    }
    assert_eq!(asked.len(), 2, "the second size reused the first bitmap");
    assert_eq!((asked[0].px, asked[1].px), (20, 40));

    let buf = icon_rows();
    for (scale, side) in [(1.0, 20u32), (2.0, 40)] {
        let frame = draw(
            &buf,
            &layout_for(buf.len() as u64, scale),
            Interaction::default(),
            &settled(),
        );
        let quads = icons(&frame.pieces)[0].quads(square(side), None, None);
        assert_eq!(quads[0].w, i128::from(side) * MICRO);
        assert_eq!(icons(&frame.pieces)[0].w, px(20.0 * scale));
    }
}

#[test]
fn distinct_kinds_land_in_distinct_atlas_slots() {
    let mut renderer = renderer();
    renderer.begin_frame(IconPx { icon: 20, emblem: None });
    let mut asked: Vec<IconShape> = Vec::new();
    for row in icon_rows().rows() {
        let _ = renderer.icon_entry(kind_of(row), |key| {
            asked.push(key.shape);
            Some(square(20))
        });
    }
    for (i, a) in asked.iter().enumerate() {
        for b in &asked[i + 1..] {
            assert_ne!(a, b, "distinct kinds must not share an atlas slot");
        }
    }
}

#[test]
fn a_hidden_file_dims_its_icon_the_same_way_it_dims_its_name() {
    let mut buf = RowBuf::new();
    for flags in [RowFlags::empty(), RowFlags::hidden()] {
        buf.push(
            RowView {
                kind: KindId(2),
                flags,
                state: LoadState::Basic,
                ..RowView::default()
            },
            b"a.rs",
        );
    }
    let frame = draw(
        &buf,
        &layout_for(2, 1.0),
        Interaction::default(),
        &settled(),
    );
    let white = opaque(1.0, 1.0, 1.0);
    let found = icons(&frame.pieces);
    assert_eq!(found.len(), 2);
    assert!(found[1].tint.of(white).a < found[0].tint.of(white).a);
    let lines = texts(&frame.pieces);
    let named: Vec<_> = lines.iter().filter(|t| t.text == "a.rs").collect();
    assert_eq!(named[1].tint.opacity, found[1].tint.opacity);
    assert_eq!(found[1].tint.opacity, Opacity::Times(px(0.55)));
}

fn grid_metrics(surface_width: u32, cell: f64, scale: f64) -> GridMetrics {
    GridMetrics::fit(
        surface_width,
        px(cell),
        px(scale),
        px(16.0 * scale),
        px(8.0),
        IconSize {
            asked: (cell.max(24.0) * ICON_BOX_FRACTION * scale).round() as u16,
            smallest: 8,
            largest: 256,
        },
    )
}

fn grid_layout(entries: u64, metrics: GridMetrics, height: u32) -> ViewportLayout {
    Recycler::new().layout_grid(
        &StubbornSource { count: entries },
        metrics.columns,
        metrics.cell_height,
        1200,
        height,
        MICRO,
        MICRO,
        Density::default(),
        0,
    )
}

fn grid_of(
    buf: &RowBuf,
    layout: &ViewportLayout,
    metrics: GridMetrics,
    interaction: Interaction<'_>,
    motion: &InteractionMotion,
) -> Vec<Piece<String>> {
    let theme = theme();
    renderer().render_grid(
        buf,
        layout,
        metrics,
        None,
        px(12.0),
        looks(&theme),
        interaction,
        motion,
    )
}

/// Whether a file of this name is badged in a cell of this size, and with what.
fn badged_at(cell: f64, scale: f64, name: &[u8], flags: RowFlags) -> bool {
    let metrics = grid_metrics((1200.0 * scale) as u32, cell, scale);
    let layout = grid_layout(40, metrics, 720);
    let mut buf = RowBuf::new();
    for _ in 0..layout.visible.count {
        buf.push(
            RowView {
                kind: KindId(2),
                flags,
                state: LoadState::Basic,
                ..RowView::default()
            },
            name,
        );
    }
    let pieces = grid_of(&buf, &layout, metrics, Interaction::default(), &settled());
    let icon_size = i128::from(metrics.icon_px) * MICRO;
    let line = px(13.0 * scale);
    icons(&pieces).iter().any(|icon| match &icon.badge {
        None => false,
        Some(file) => match badge_text(file, icon_size, line, &tokens(), px(scale)) {
            None => false,
            Some(ext) => {
                let (x, y) = icon.corner(icon_size);
                draw_extension_badge(
                    x,
                    y,
                    icon_size,
                    px(ext.len() as f64 * 5.0 * scale),
                    px(10.0 * scale),
                    line,
                    &tokens(),
                    px(scale),
                    false,
                )
                .is_some()
            }
        },
    })
}

#[test]
fn the_ribbon_is_a_rect_and_costs_the_icon_atlas_nothing() {
    let metrics = grid_metrics(1200, 120.0, 1.0);
    let layout = grid_layout(40, metrics, 720);
    let mut buf = RowBuf::new();
    for i in 0..layout.visible.count {
        let name: &[u8] = match i % 5 {
            0 => b"main.rs",
            1 => b"notes.txt",
            2 => b"data.json",
            3 => b"photo.png",
            _ => b"build.log",
        };
        buf.push(
            RowView {
                kind: KindId(2),
                state: LoadState::Basic,
                ..RowView::default()
            },
            name,
        );
    }
    let mut renderer = renderer();
    let theme = theme();
    let pieces = renderer.render_grid(
        &buf,
        &layout,
        metrics,
        None,
        px(12.0),
        looks(&theme),
        Interaction::default(),
        &settled(),
    );
    let side = i128::from(metrics.icon_px) * MICRO;
    let mut asked = 0;
    let mut ribbons = Vec::new();
    for icon in icons(&pieces) {
        let entry = renderer.icon_entry(icon.kind, |_| {
            asked += 1;
            Some(square(u32::from(metrics.icon_px)))
        });
        assert!(entry.is_some());
        let Some(ext) = icon
            .badge
            .as_ref()
            .and_then(|file| badge_text(file, side, px(13.0), &tokens(), MICRO))
        else {
            continue;
        };
        let (x, y) = icon.corner(side);
        let width = px(ext.len() as f64 * 5.0);
        let badge = draw_extension_badge(
            x,
            y,
            side,
            width,
            px(10.0),
            px(13.0),
            &tokens(),
            MICRO,
            false,
        );
        ribbons.push(badge.expect("there is room for three letters").ribbon);
    }
    assert!(!ribbons.is_empty(), "no badges were drawn");
    for ribbon in ribbons {
        assert!(ribbon.w > 0 && ribbon.h == px(13.0), "the ribbon is not a rectangle");
    }
    assert_eq!(asked, 1, "badging cost the icon atlas an entry");
    assert_eq!(renderer.icons_dropped(), 0);
}

fn smallest_badged_cell(scale: f64) -> Option<f64> {
    (24..=140)
        .map(f64::from)
        .find(|&c| badged_at(c, scale, b"main.rs", RowFlags::empty()))
}

#[test]
fn a_large_cell_badges_a_file_and_a_small_one_does_not() {
    assert!(badged_at(120.0, 1.0, b"main.rs", RowFlags::empty()));
    assert!(!badged_at(30.0, 1.0, b"main.rs", RowFlags::empty()));
}

#[test]
fn the_badge_threshold_is_the_same_logical_size_at_every_device_scale() {
    let at_1x = smallest_badged_cell(1.0).unwrap();
    let at_2x = smallest_badged_cell(2.0).unwrap();
    assert!(
        (at_1x - at_2x).abs() <= 1.0,
        "the badge appears at {at_1x} logical px at 1x but {at_2x} at 2x"
    );
    let icon_at_threshold = at_1x * ICON_BOX_FRACTION;
    assert!((28.0..48.0).contains(&icon_at_threshold));
}

#[test]
fn the_badge_never_enters_the_corner_the_symlink_emblem_owns() {
    let size = 66u32;
    let icon_size = i128::from(size) * MICRO;
    let emblem = icon_size * 45 / 100;
    for letters in 1..=11 {
        let Some(badge) = draw_extension_badge(
            px(100.0),
            px(200.0),
            icon_size,
            px(f64::from(letters) * 3.0),
            px(10.0),
            px(13.0),
            &tokens(),
            MICRO,
            false,
        ) else {
            continue;
        };
        assert!(badge.ribbon.x >= px(100.0) + emblem);
        assert!(badge.ribbon.x + badge.ribbon.w <= px(100.0) + icon_size + px(0.5));
        assert_eq!(badge.tint.token, Token::Badge);
    }
}

#[test]
fn nothing_without_an_extension_is_badged() {
    for name in [b"Makefile".as_slice(), b".gitignore", b"trailing."] {
        assert!(!badged_at(120.0, 1.0, name, RowFlags::empty()));
    }
    assert!(!badged_at(120.0, 1.0, b"site.com", RowFlags::dir()));
}

#[test]
fn an_extension_too_wide_for_the_room_draws_nothing_rather_than_a_clipped_ribbon() {
    let cell = smallest_badged_cell(1.0).unwrap() + 1.0;
    assert!(badged_at(cell, 1.0, b"a.rs", RowFlags::empty()));
    assert!(!badged_at(cell, 1.0, b"a.javascript", RowFlags::empty()));
}

#[test]
fn the_list_view_can_never_reach_the_badge_threshold() {
    for scale in [1.0, 1.25, 1.5, 2.0, 3.0] {
        let icon = px((20.0f64 * scale).round());
        assert_eq!(
            badge_text("main.rs", icon, px(11.0 * scale), &tokens(), px(scale)),
            None,
            "at {scale}x the list's icon clears the badge threshold"
        );
    }
    let buf = plain_rows(8);
    let frame = draw(
        &buf,
        &layout_for(8, 1.0),
        Interaction::default(),
        &settled(),
    );
    assert!(icons(&frame.pieces).iter().all(|i| i.badge.is_none()));
}

#[test]
fn the_cell_size_is_continuous_rather_than_stepped() {
    let mut previous = 0u32;
    let mut distinct = 0usize;
    for step in 0..100 {
        let cell = 64.0 + f64::from(step) * 2.0;
        let height = grid_metrics(1200, cell, 1.0).cell_height;
        assert!(
            height >= previous,
            "cell {cell} shrank: {height} < {previous}"
        );
        if height != previous {
            distinct += 1;
        }
        previous = height;
    }
    assert!(
        distinct > 80,
        "only {distinct} distinct heights across 100 sizes"
    );
}

#[test]
fn the_column_count_falls_as_the_cell_grows_and_never_reaches_zero() {
    let mut previous = u32::MAX;
    for step in 0..60 {
        let cell = 48.0 + f64::from(step) * 24.0;
        let columns = grid_metrics(1200, cell, 1.0).columns;
        assert!(columns >= 1, "cell {cell} produced {columns} columns");
        assert!(columns <= previous, "cell {cell} gained columns");
        previous = columns;
    }
    assert_eq!(grid_metrics(40, 320.0, 1.0).columns, 1);
}

#[test]
fn the_icon_is_clamped_to_what_the_rasterizer_will_produce() {
    let huge = grid_metrics(4000, 1000.0, 2.0);
    assert_eq!(huge.icon_px, 256);
    let tiny = grid_metrics(400, 24.0, 0.2);
    assert_eq!(tiny.icon_px, 8);
}

#[test]
fn every_cell_draws_its_icon_and_they_land_where_the_layout_says() {
    let metrics = grid_metrics(1200, 120.0, 1.0);
    let layout = grid_layout(400, metrics, 720);
    let buf = plain_rows(layout.visible.count as usize);
    let pieces = grid_of(&buf, &layout, metrics, Interaction::default(), &settled());

    let found = icons(&pieces);
    assert_eq!(found.len(), buf.len());
    for (slot, icon) in found.iter().enumerate() {
        let quad = icon.quads(square(u32::from(metrics.icon_px)), None, None)[0];
        let (cx, cy, cw, ch) = layout.cell_rect(slot as u32);
        assert!(quad.x >= cx && quad.x + quad.w <= cx + cw + px(0.5));
        assert!(quad.y >= cy && quad.y + quad.h <= cy + ch + px(0.5));
    }
}

#[test]
fn the_grid_labels_its_cells() {
    let metrics = grid_metrics(1200, 120.0, 1.0);
    let layout = grid_layout(40, metrics, 720);
    let buf = plain_rows(layout.visible.count as usize);
    let pieces = grid_of(&buf, &layout, metrics, Interaction::default(), &settled());
    let labels = texts(&pieces);
    assert_eq!(labels.len(), buf.len());
    assert!(labels
        .iter()
        .all(|t| t.text == "module.rs" && t.face == Face::Meta));
}

#[test]
fn the_focused_cell_gets_a_ring_and_the_others_do_not() {
    let metrics = grid_metrics(1200, 120.0, 1.0);
    let layout = grid_layout(400, metrics, 720);
    let buf = plain_rows(layout.visible.count as usize);
    let interaction = Interaction {
        focused: Some(6),
        ..Interaction::default()
    };
    let pieces = grid_of(&buf, &layout, metrics, interaction, &settled());
    let strokes = rings(&pieces);
    assert_eq!(strokes.len(), 2, "{strokes:?}");
    let (cx, cy, _, _) = layout.cell_rect(6);
    for stroke in strokes {
        if let Piece::Ring { shape, .. } = stroke {
            assert!(shape.x >= cx - px(1.0) && shape.y >= cy - px(1.0));
        }
    }
}

#[test]
fn the_focus_ring_is_identical_with_the_lit_mode_on_and_off() {
    let layout = layout_for(12, 2.0);
    let buf = plain_rows(layout.visible.count as usize);
    let interaction = Interaction {
        focused: Some(4),
        ..Interaction::default()
    };
    let mut motion = settled();
    motion.set_focused(Some(4));

    let unlit = draw(&buf, &layout, interaction, &motion);
    let with_light = frame_of(
        &mut renderer(),
        &theme(),
        &buf,
        &layout,
        interaction,
        &motion,
        true,
    );
    assert!(!rings(&unlit.pieces).is_empty());
    assert_eq!(rings(&unlit.pieces), rings(&with_light.pieces));

    let mut scene: SceneBuilder<u8, u8> = SceneBuilder::new(
        2,
        (px(1200.0), i128::from(layout.height) * MICRO),
        px(64.0),
        0,
        100,
    );
    with_light.light(&mut scene);
    let scene = scene.finish();
    assert!(scene.focus_light.is_some());
    assert!(!scene.slabs.is_empty());
    assert!(unlit.lamp.is_none() && unlit.slabs.is_empty());

    let mut small: SceneBuilder<u8, u8> = SceneBuilder::new(
        3,
        (px(1200.0), i128::from(layout.height) * MICRO),
        px(64.0),
        0,
        1,
    );
    with_light.light(&mut small);
    let small = small.finish();
    assert_eq!(small.slabs.len(), 1);
    assert_eq!(small.dropped as usize, scene.slabs.len() - 1);
}

#[test]
fn a_column_draws_no_metadata() {
    let buf = plain_rows(3);
    let theme = theme();
    let frame = renderer().render_column(
        &buf,
        &vec![Substance { bevel: 0 }; 3],
        &layout_for(3, 1.0),
        ICON_SIZES,
        looks(&theme),
        None,
        Interaction::default(),
        &settled(),
    );
    assert_eq!(texts(&frame.pieces).len(), 3);
    assert_eq!(icons(&frame.pieces).len(), 3);
}

#[test]
fn faces_are_chosen_by_weight_and_fall_back_to_the_plain_one() {
    let renderer = renderer();
    assert_eq!(renderer.face_for(600), FontId(1));
    assert_eq!(renderer.face_for(450), FontId(0));
    assert!(!renderer.has_single_face());
    assert_eq!(renderer.weight_coverage(), &vec![400, 600]);
    let role = renderer.resolve_role(600, px(10.0), None);
    assert_eq!(role.font, FontId(1));
    assert_eq!(role.ascent, px(8.0));
    assert_eq!(role.line_height, px(12.5));
    assert_eq!(cell_advance(px(8.0), px(8.0)), (px(8.0), true));
}

#[test]
fn weights_that_share_a_face_are_covered_once() {
    let shared: ListRenderer<u32> = ListRenderer::new(
        tokens(),
        FontId(0),
        vec![(400, FontId(0)), (500, FontId(0)), (600, FontId(0))],
    );
    assert_eq!(shared.weight_coverage(), &vec![400]);
    assert!(shared.has_single_face());
    assert_eq!(shared.face_for(600), FontId(0));

    let two: ListRenderer<u32> = ListRenderer::new(
        tokens(),
        FontId(0),
        vec![(400, FontId(0)), (500, FontId(3)), (600, FontId(0)), (700, FontId(3))],
    );
    assert_eq!(two.weight_coverage(), &vec![400, 500]);
    assert!(!two.has_single_face());
}

fn plain_ink() -> Tint {
    Tint {
        token: Token::Primary,
        opacity: Opacity::Times(MICRO),
    }
}

#[test]
fn a_line_of_text_starts_where_its_alignment_says() {
    let mut line = renderer().draw_label(
        name("label"),
        px(10.0),
        px(20.0),
        px(50.0),
        renderer().resolve_role(600, px(10.0), None),
        true,
        plain_ink(),
    );
    assert_eq!(line.start(px(30.0)), px(10.0));
    assert!(matches!(line.face, Face::Role(role) if role.font == FontId(1)));
    line.align = Align::Right(px(100.0));
    assert_eq!(line.start(px(30.0)), px(70.0));
    assert_eq!(line.start(px(90.0)), px(50.0), "never left of its column");
    line.align = Align::Centre {
        x: px(10.0),
        width: px(80.0),
    };
    assert_eq!(line.start(px(30.0)), px(35.0));
}

#[test]
fn a_line_that_ends_where_it_is_put_is_never_cut() {
    let run = fake_run(&[10.0; 10], &(0..10).collect::<Vec<_>>());
    let mut line = renderer().draw_label(
        name("0123456789"),
        px(10.0),
        px(20.0),
        px(40.0),
        renderer().resolve_role(600, px(10.0), None),
        true,
        plain_ink(),
    );
    let cut = line.lay_out(&run, px(8.0)).unwrap();
    assert_eq!(cut.x, px(10.0));
    assert!(cut.head < run.glyphs.len());
    assert!(cut.ellipsis.is_some());
    line.align = Align::Right(px(100.0));
    let n = run.glyphs.len();
    assert_eq!(
        line.lay_out(&run, px(8.0)),
        Some(TextLayout {
            x: px(60.0),
            head: n,
            ellipsis: None,
            tail: n,
            tail_x: px(60.0),
        })
    );
    line.align = Align::Left(0);
    line.max_width = 0;
    assert_eq!(line.lay_out(&run, px(8.0)), None);
}

#[test]
fn drawing_a_list_or_a_grid_starts_a_frame() {
    let mut renderer = renderer();
    renderer.begin_frame(ICON_SIZES);
    assert_eq!(renderer.icon_entry(IconKind::Code, |_| None), None);
    assert_eq!(renderer.icons_dropped(), 1);
    let buf = plain_rows(1);
    let layout = layout_for(1, 1.0);
    let _ = frame_of(
        &mut renderer,
        &theme(),
        &buf,
        &layout,
        Interaction::default(),
        &settled(),
        true,
    );
    assert_eq!(renderer.icons_dropped(), 0);
    let found = renderer.icon_entry(IconKind::Code, |key| {
        assert_eq!(key.px, 20);
        Some(square(20))
    });
    assert_eq!(found, Some(square(20)));

    let metrics = grid_metrics(1200, 120.0, 1.0);
    let layout = grid_layout(40, metrics, 720);
    let theme = theme();
    let _ = renderer.render_grid(
        &plain_rows(1),
        &layout,
        metrics,
        None,
        px(12.0),
        looks(&theme),
        Interaction::default(),
        &settled(),
    );
    let found = renderer.icon_entry(IconKind::Code, |key| {
        assert_eq!(key.px, metrics.icon_px);
        Some(square(66))
    });
    assert_eq!(found, Some(square(66)));
}

#[test]
fn a_chrome_icon_is_drawn_where_it_is_put_or_counted_as_missing() {
    let mut renderer = renderer();
    let drawn = renderer.draw_state_icon(7u8, px(3.0), px(4.0), 16, plain_ink(), |state, side| {
        assert_eq!((state, side), (7, 16));
        Some(square(16))
    });
    let quad = drawn.unwrap();
    assert_eq!((quad.x, quad.y, quad.w), (px(3.0), px(4.0), px(16.0)));
    let missing = renderer.draw_chevron(1u8, 0, 0, 16, plain_ink(), |_, _| None);
    assert_eq!(missing, None);
    assert_eq!(renderer.icons_dropped(), 1);
}

#[test]
fn a_monospaced_role_is_at_least_a_pixel() {
    let role = renderer().resolve_mono(FontId(9), 0, None);
    assert_eq!((role.font, role.size), (FontId(9), MICRO));
}

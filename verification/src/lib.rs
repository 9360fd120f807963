//! The list and grid views of a file manager: row heights, virtualization, motion,
//! materials, accessibility, and the plan of what each frame draws.
//!
//! Every rule the views follow is stated as a contract and proved. Quantities that a
//! display measures as reals (pixels, seconds, opacities) are whole millionths here, so
//! that arithmetic on them is exact; see [`units`].

pub mod a11y;
pub mod column_layout;
pub mod density;
pub mod fenwick;
pub mod mark;
pub mod material;
pub mod motion;
pub mod recycler;
pub mod row;
pub mod row_source;
pub mod scene;
pub mod scroll;
pub mod selection;
pub mod text;
pub mod units;

pub use a11y::{audit, SemanticNode, SemanticTree};
pub use density::{Density, DensityTransition};
pub use fenwick::{Fenwick, Heights};
pub use mark::{no_marks, SessionMark, SessionMarks};
pub use material::{Material, Substance, Surface};
pub use motion::{Animation, MotionKind, MotionPlan, MotionPreference};
pub use recycler::{Recycler, ViewportLayout};
pub use row::{
    format_mtime, format_size, kind_of, Columns, GridMetrics, ListRenderer, ResolvedRole,
};
pub use row_source::{
    EmptySource, KindId, LoadState, RowBuf, RowFlags, RowId, RowSource, RowView, StubbornSource,
};
pub use scroll::{rebase_to_viewport, visible_range, ScrollState, VisibleRange};
pub use selection::Selection;

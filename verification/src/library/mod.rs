//! The declared library root and everything anchored to it: the portable
//! identity of a file (its slug), the shape scan, the backfill plan with its
//! event log, and the policy for claiming chunks of it.

pub mod backfill;
pub mod board;
pub mod claim;
pub mod events;
pub mod listing;
pub mod plan;
pub mod sanity;
pub mod shape;
pub mod slug;

pub use backfill::{plan_slug_backfill, BackfillSlugsReport};
pub use claim::{pick_next_chunk, resolve_chunk_targets, ClaimReport, PickNextError};
pub use events::{fold_chunk_status, ChunkEvent, ChunkEventKind, ChunkState, ChunkStatus};
pub use plan::{build_plan, BackfillPlan, PlanChunk};
pub use sanity::{check_chunk_stats, StatSanityCheck};
pub use shape::{scan_library_shape, LibraryShape, ShapeOptions, SubtreeShape};
pub use slug::compute_slug;

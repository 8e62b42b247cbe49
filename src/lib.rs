//! Bounded-size replay of a saved conversation transcript into a live
//! agent session: token estimation, filtering, segmentation, and the
//! step-wise delivery driver, along with the session list that offers
//! transcripts for replay.

pub mod item;
pub mod estimate;
pub mod segment;
pub mod text;
pub mod render;
pub mod driver;
pub mod plan;
pub mod textorder;
pub mod seed;
pub mod transcript;
pub mod sessions;

pub use item::Item;
pub use estimate::{approximate_tokens, fits_in_count};
pub use segment::{filter_response_items, segment_items_by_tokens};
pub use driver::{ProgressSnapshot, ReplayAction, ReplayStatus, RestoreProgressView};
pub use plan::{plan_replay, ReplayPlan};
pub use transcript::{has_user_messages, render_user_assistant_lines};
pub use sessions::{
    format_header_showing, format_label, is_jsonl, load_sessions_from_codex_home,
    summarize_session, truncate_graphemes, SessionHeader, SessionMeta, SessionsPopup,
};

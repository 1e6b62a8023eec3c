//! Picks interesting tokens (URLs, paths, hashes, addresses) out of terminal
//! text, labels each with a one-key hint, and decides what a key press selects.
pub mod extract;
pub mod overlay;
pub mod pattern;
pub mod select;

pub use extract::{find_matches, hint_char, offer_captures, Match, HINT_COUNT, MAX_MATCHES};
pub use overlay::{render_overlay, Draw};
pub use pattern::{Capture, Pattern, PatternError, PatternSet, Span};
pub use select::{on_key, selection_output, KeyEvent, Step, PASTE_PREFIX};

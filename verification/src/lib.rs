//! Locale tags and language negotiation.
//!
//! [`negotiate_languages`] chooses, among the locale tags that an application
//! has, those that serve the tags that a user asks for:
//!
//! ```text
//! requested: ["pl", "fr", "en-US"]
//! available: ["it", "de", "fr", "en-GB", "en-US"]
//! default:   "en-US"
//! strategy:  Filtering
//! outcome:   ["fr", "en-US", "en-GB"]
//! ```
//!
//! What the outcome is, for every input, is stated in [`negotiate::model`] and
//! proved of the code in [`negotiate`]; what follows from it for every
//! negotiation is proved in [`negotiate::guarantees`]. [`locale`] holds the
//! tags themselves: their grammar, their canonical spelling and the ways in
//! which one locale can satisfy another.

pub mod locale;
pub mod negotiate;
pub mod text;

pub use crate::locale::{Locale, LocaleError};
pub use crate::negotiate::{filter_matches, negotiate_languages, NegotiationStrategy};

//! Derivation of a small color theme (background, accent, neutral, optional
//! text tint, and a synchronized secondary palette) from the dominant colors
//! of an image, with contrast-driven lightness adjustment and configurable
//! avoidance rules.
//!
//! Colors are carried in a cylindrical perceptual form (lightness, chroma,
//! hue) at a fixed precision of one thousandth of a unit, so that every
//! decision the pipeline makes — ranking, demotion, role selection, contrast
//! adjustment, palette synchronization — is exact integer arithmetic and is
//! verified. Conversions between device color and this form, image decoding,
//! clustering and contrast evaluation are performed by the caller, which
//! hands the results in as plain values.
//!
//! The modules, in pipeline order: [`color`] holds the color form and its
//! range rules; [`cluster`] the clustering parameters, the deterministic
//! choice among repeated runs and the sampling geometry; [`rank`] the
//! weighting, ordering and demotion of cluster centroids; [`avoid`] the
//! avoidance buckets; [`adjust`] the contrast-driven lightness sweep;
//! [`select`] the role state machine; [`shuffle`] the randomized scan
//! order; [`sync`] the palette synchronization; [`derive`] the composed
//! tail of one derivation; [`cache`] the result-cache keys and the skip
//! decision; [`daemon`] the trigger loop's decisions; [`theme`] the
//! outward-facing values.

pub mod adjust;
pub mod avoid;
pub mod cache;
pub mod cluster;
pub mod color;
pub mod daemon;
pub mod derive;
pub mod rank;
pub mod select;
pub mod shuffle;
pub mod sync;
pub mod theme;

pub use color::LchColor;

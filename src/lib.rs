use vstd::prelude::*;

mod euclid;
mod pair;
mod render;

pub use euclid::{gcd, gcd_spec};
pub use pair::{analy_paire, is_first_index, pair_of, split_pair};
pub use render::{band_fits, intensity, intensity_spec, pixel_shows, render, render_band, RenderError};

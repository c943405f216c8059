pub mod energy;
pub mod error;
pub mod image;
pub mod remove;
pub mod resize;
pub mod seam;

pub use crate::energy::{calculate_energy_map, get_pixel_energy, EnergyMap, EnergyView};
pub use crate::error::ResizeError;
pub use crate::image::{Image, ImageView, Pixel};
pub use crate::remove::delete_seam;
pub use crate::resize::{carve_one_seam, resize_image_width};
pub use crate::seam::{find_low_energy_seam, Seam};

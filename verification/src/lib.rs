//! Soccer match resolution and pitch-diagram rendering.
//!
//! The crate holds the computational core of a terminal soccer client:
//! fuzzy resolution of a free-text query against a list of match records,
//! construction of a fixed character grid depicting a pitch, placement of
//! two teams' shirt numbers on that grid, and stitching of team-name
//! headers and a paired roster listing around it. Fetching and scraping
//! the records is the surrounding application's business; everything in
//! here is a pure transformation of already-materialized values.

pub mod fuzzy;
pub mod layout;
pub mod pitch;
mod record;
pub mod stitch;

pub use layout::LineUp;
pub use layout::Player;
pub use record::Game;
pub use record::Status;
pub use record::construct_url;
pub use record::status_of;

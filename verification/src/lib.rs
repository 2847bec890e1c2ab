//! Conversion of an instant into the traditional Chinese lunisolar calendar: the lunar year,
//! month and day with the leap-month flag, the four sexagenary pillars of year, month, day
//! and hour, and two day qualities of the almanac.
//!
//! The conversion runs in steps, each a module of its own:
//!
//! - [`ephemeris`] finds new moons and solar-term crossings in the longitudes of Sun and
//!   Moon, which the caller supplies as two oracles;
//! - [`segment`] cuts time into lunar months at the new moons and marks the months into which
//!   a principal term falls;
//! - [`leap`] numbers the months from the one that holds the winter solstice;
//! - [`ganzhi`] derives the pillars, [`huangdao`] the day qualities;
//! - [`convert`] puts the steps together.
//!
//! [`civil`] holds the calendar arithmetic underneath, [`bazi`] the analysis of a chart of
//! four pillars, [`datasource`] a table of open files over data held in memory, and
//! [`ctype`] the classes of characters.
//!
//! Instants are integers: milliseconds since 1970-01-01 00:00 UTC at the calendar's surface,
//! billionths of a Julian day where events are searched. Every function is verified against
//! the contract it states; none panics on an input that its contract admits.

pub mod bazi;
pub mod civil;
pub mod convert;
pub mod ctype;
pub mod datasource;
pub mod ephemeris;
pub mod ganzhi;
pub mod huangdao;
pub mod leap;
pub mod segment;
pub mod text;

pub use convert::{from_solar_date_auto, from_solar_date_core, ConvertError, LunisolarResult};
pub use ephemeris::{compute_new_moons, compute_solar_terms};

//! Road drawing data handling: DXF reading, CSV and command parsing.

pub mod text;
pub mod fields;
pub mod number;
pub mod dxf;
pub mod dxf_reader;
pub mod dxf_writer;
pub mod params;
pub mod marking;
pub mod sections;
pub mod dxf_index;
pub mod crosswalk;
pub mod comparator;
pub mod grid;
pub mod triangle_csv;
pub mod survey;
pub mod road_section;
pub mod app_state;

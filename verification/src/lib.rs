//! Converts the XML parts of a spreadsheet package into rows of cell text.

pub mod cellref;
pub mod csv_out;
pub mod dates;
pub mod shared_strings;
pub mod sheet;
pub mod styles;
pub mod text;
pub mod workbook;
pub mod xml;

pub use cellref::col_to_index;
pub use cellref::parse_cell_ref;
pub use cellref::CellRef;
pub use csv_out::encode_row;
pub use csv_out::parse_delimiter;
pub use dates::serial_parts_to_iso_date;
pub use dates::unix_seconds_to_iso_date;
pub use shared_strings::read_shared_strings;
pub use sheet::convert_sheet;
pub use sheet::CellValue;
pub use sheet::SheetOutput;
pub use sheet::SheetRecord;
pub use sheet::SheetRows;
pub use styles::parse_styles;
pub use styles::StyleInfo;
pub use workbook::parse_workbook;
pub use workbook::parse_workbook_rels;
pub use workbook::to_lowercase_filename;
pub use workbook::Relationship;
pub use workbook::SheetInfo;
pub use xml::tag_eq_ignore_case;
pub use xml::XmlError;

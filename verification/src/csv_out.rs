//! Delimited text: one line for each row.

use crate::text::chars_of;
use crate::text::strings_model;
use vstd::prelude::*;
use vstd::string::StringExecFns;

verus! {

/// The line that writes the record `fields` with the delimiter `delimiter`:
/// the fields in order, quoted where they need it, and a line feed; `None`
/// where the record cannot be written.
pub uninterp spec fn csv_record(fields: Seq<Seq<char>>, delimiter: u8) -> Option<Seq<u8>>;

/// `csv::Writer::write_record` on a writer of its own, which takes records of
/// any length and writes into memory, then `into_inner`.
#[verifier::external_body]
fn write_record(fields: &Vec<String>, delimiter: u8) -> (line: Option<Vec<u8>>)
    ensures
        line is Some <==> csv_record(strings_model(fields@), delimiter) is Some,
        line is Some ==> line.unwrap()@ == csv_record(strings_model(fields@), delimiter).unwrap(),
{
    let mut writer = csv::WriterBuilder::new().flexible(true).delimiter(delimiter).from_writer(Vec::new());
    writer.write_record(fields).ok()?;
    writer.into_inner().ok()
}

pub open spec fn is_delimiter(delimiter: u8) -> bool {
    delimiter == 44 || delimiter == 59
}

/// Writes one row as a line of delimited text, the delimiter being a comma or a
/// semicolon.
pub fn encode_row(fields: &Vec<String>, delimiter: u8) -> (line: Option<Vec<u8>>)
    requires
        is_delimiter(delimiter),
    ensures
        line is Some <==> csv_record(strings_model(fields@), delimiter) is Some,
        line is Some ==> line.unwrap()@ == csv_record(strings_model(fields@), delimiter).unwrap(),
{
    write_record(fields, delimiter)
}

/// The delimiter that `s` names: a comma or a semicolon, and no other.
pub open spec fn delimiter_of(s: Seq<char>) -> Option<u8> {
    if s == seq![','] {
        Some(44u8)
    } else if s == seq![';'] {
        Some(59u8)
    } else {
        None
    }
}

/// What is said of a delimiter `s` that is neither.
pub open spec fn delimiter_message(s: Seq<char>) -> Seq<char> {
    "Invalid delimiter '"@ + s + "'. Supported delimiters: ',' (comma) or ';' (semicolon)"@
}

/// Reads the delimiter that a user chose.
pub fn parse_delimiter(s: &str) -> (parsed: Result<u8, String>)
    ensures
        match delimiter_of(s@) {
            Some(d) => parsed == Ok::<u8, String>(d) && is_delimiter(d),
            None => parsed matches Err(message) && message@ == delimiter_message(s@),
        },
{
    let chars = chars_of(s);
    if chars.len() == 1 && chars[0] == ',' {
        assert(chars@ =~= seq![',']);
        Ok(44)
    } else if chars.len() == 1 && chars[0] == ';' {
        assert(chars@ =~= seq![';']);
        Ok(59)
    } else {
        let mut message = String::from_str("Invalid delimiter '");
        message.append(s);
        message.append("'. Supported delimiters: ',' (comma) or ';' (semicolon)");
        Err(message)
    }
}

} // verus!

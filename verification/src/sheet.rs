//! The worksheet converter: from the XML events of one worksheet to its rows of
//! cell text.

use crate::cellref::cell_ref_of;
use crate::cellref::parse_cell_ref;
use crate::dates::iso_timestamp;
use crate::dates::unix_seconds_to_iso_date;
use crate::styles::is_date_style;
use crate::styles::number_attribute;
use crate::styles::number_of;
use crate::styles::style_is_date;
use crate::styles::StyleInfo;
use crate::text::chars_of;
use crate::text::lossy_text;
use crate::text::parse_index;
use crate::text::parse_unsigned;
use crate::text::same_bytes;
use crate::text::strings_model;
use crate::text::trimmed;
use crate::text::utf8_lossy;
use quick_xml::reader::Reader;
use crate::xml::attribute_value;
use crate::xml::find_attribute;
use crate::xml::tag_eq_ignore_case;
use crate::xml::tag_matches;
use crate::xml::unescape;
use crate::xml::xml_unescaped;
use crate::xml::XmlAttribute;
use crate::xml::next_event;
use crate::xml::open_reader;
use crate::xml::pending_events;
use crate::xml::xml_events;
use crate::xml::XmlError;
use crate::xml::XmlEvent;
use crate::xml::XmlFailure;
use crate::xml::XmlTag;
use vstd::prelude::*;
use vstd::string::StringExecFns;
use vstd::string::StringSliceAdditionalSpecFns;

verus! {

/// How a cell says that its text is to be read.
#[derive(Debug, Clone, Copy, PartialEq, Eq, Structural)]
pub enum CellKind {
    /// An index into the shared strings.
    SharedString,
    /// `1` for true, anything else for false.
    Boolean,
    /// The text itself: an inline string or the string that a formula gave.
    Inline,
    /// An error code.
    Error,
    /// A number, which a date style may show as a date.
    Number,
}

/// The text of one cell of the output.
#[derive(Debug)]
pub enum CellValue {
    /// The text is final.
    Text(String),
    /// The text of a number cell under a date style: where it reads as a number,
    /// that number is a day serial and the cell shows its timestamp.
    DateSerial(String),
}

/// A `CellValue` as plain data.
pub enum CellModel {
    Text(Seq<char>),
    DateSerial(Seq<char>),
}

impl CellModel {
    pub open spec fn text(self) -> Seq<char> {
        match self {
            CellModel::Text(t) => t,
            CellModel::DateSerial(t) => t,
        }
    }

    /// An empty cell does not count for the width of the sheet. A date serial is
    /// empty where its text is: a timestamp never is.
    pub open spec fn is_empty(self) -> bool {
        self.text().len() == 0
    }

    pub open spec fn blank() -> CellModel {
        CellModel::Text(Seq::empty())
    }
}

impl View for CellValue {
    type V = CellModel;

    open spec fn view(&self) -> CellModel {
        match self {
            CellValue::Text(t) => CellModel::Text(t@),
            CellValue::DateSerial(t) => CellModel::DateSerial(t@),
        }
    }
}

/// One step of the output: a run of rows that the sheet left out, or a row.
#[derive(Debug)]
pub enum SheetRecord {
    /// So many rows without a cell.
    Gap(u32),
    /// The cells of one row.
    Row(Vec<CellValue>),
}

/// A `SheetRecord` as plain data.
pub enum RecordModel {
    Gap(u32),
    Row(Seq<CellModel>),
}

pub open spec fn cells_model(cells: Seq<CellValue>) -> Seq<CellModel> {
    Seq::new(cells.len(), |i: int| cells[i]@)
}

impl View for SheetRecord {
    type V = RecordModel;

    open spec fn view(&self) -> RecordModel {
        match self {
            SheetRecord::Gap(n) => RecordModel::Gap(*n),
            SheetRecord::Row(cells) => RecordModel::Row(cells_model(cells@)),
        }
    }
}

pub open spec fn records_model(records: Seq<SheetRecord>) -> Seq<RecordModel> {
    Seq::new(records.len(), |i: int| records[i]@)
}

/// The rows that `records` stand for, a gap written out as rows without a cell.
pub open spec fn rows_of(records: Seq<RecordModel>) -> Seq<Seq<CellModel>>
    decreases records.len(),
{
    if records.len() == 0 {
        Seq::empty()
    } else {
        rows_of(records.drop_last()) + match records.last() {
            RecordModel::Gap(n) => Seq::new(n as nat, |i: int| Seq::<CellModel>::empty()),
            RecordModel::Row(cells) => seq![cells],
        }
    }
}

/// The cell that is open: what its start tag said and the text met since.
pub struct PendingModel {
    /// The place of the cell in its row, counted from 0, where its address gives one.
    pub place: Option<u32>,
    pub kind: CellKind,
    pub style: Option<u32>,
    pub text: Seq<char>,
}

/// The state of a conversion between two events.
pub struct SheetModel {
    /// The number of the row started last, 0 before the first.
    pub current_row: u32,
    /// The cells of the row that is open.
    pub row: Seq<CellModel>,
    pub cell: PendingModel,
    /// The width to which rows are padded, once the first row has closed.
    pub width: Option<usize>,
}

impl PendingModel {
    pub open spec fn fresh() -> PendingModel {
        PendingModel { place: None, kind: CellKind::Number, style: None, text: Seq::empty() }
    }
}

impl SheetModel {
    pub open spec fn initial() -> SheetModel {
        SheetModel { current_row: 0, row: Seq::empty(), cell: PendingModel::fresh(), width: None }
    }
}

/// The number of the row that starts after row `current`: the one it declares,
/// or else the next.
pub open spec fn next_row_number(current: u32, declared: Option<u32>) -> u32 {
    match declared {
        Some(n) => n,
        None => if current < u32::MAX {
            (current + 1) as u32
        } else {
            current
        },
    }
}

/// How many rows the sheet left out between row `current` and row `next`.
pub open spec fn skipped_rows(current: u32, next: u32) -> u32 {
    if next > current + 1 {
        (next - current - 1) as u32
    } else {
        0
    }
}

/// What the type attribute `t` of a cell says: `s`, `b`, `inlineStr` or `str`,
/// `e`; a cell without it, or with any other, holds a number.
pub open spec fn cell_kind_of(t: Option<Seq<u8>>) -> CellKind {
    match t {
        Some(v) => if v == "s".spec_bytes() {
            CellKind::SharedString
        } else if v == "b".spec_bytes() {
            CellKind::Boolean
        } else if v == "inlineStr".spec_bytes() || v == "str".spec_bytes() {
            CellKind::Inline
        } else if v == "e".spec_bytes() {
            CellKind::Error
        } else {
            CellKind::Number
        },
        None => CellKind::Number,
    }
}

/// The place in its row that the address attribute `r` of a cell gives, counted
/// from 0, if it names a cell.
pub open spec fn cell_place(r: Option<Seq<u8>>) -> Option<u32> {
    match r {
        Some(v) => match cell_ref_of(utf8_lossy(v)) {
            Some(cell) => Some((cell.col - 1) as u32),
            None => None,
        },
        None => None,
    }
}

/// The cell that the start tag with `attributes` opens.
pub open spec fn opened_cell(attributes: Seq<XmlAttribute>) -> PendingModel {
    PendingModel {
        place: cell_place(attribute_value(attributes, "r".spec_bytes(), "r".spec_bytes())),
        kind: cell_kind_of(attribute_value(attributes, "t".spec_bytes(), "t".spec_bytes())),
        style: number_attribute(attributes, "s".spec_bytes()),
        text: Seq::empty(),
    }
}

/// The text that the shared-string cell text `text` refers to: the string at the
/// index that it writes, and the empty string where it writes none or one
/// beyond `shared`.
pub open spec fn shared_string(text: Seq<char>, shared: Seq<Seq<char>>) -> Seq<char> {
    match parse_unsigned(trimmed(text), usize::MAX as nat) {
        Some(i) => if i < shared.len() {
            shared[i as int]
        } else {
            Seq::empty()
        },
        None => Seq::empty(),
    }
}

/// What a cell shows, by its kind.
pub open spec fn resolved_cell(cell: PendingModel, shared: Seq<Seq<char>>, styles: Seq<StyleInfo>) -> CellModel {
    match cell.kind {
        CellKind::SharedString => CellModel::Text(shared_string(cell.text, shared)),
        CellKind::Boolean => CellModel::Text(
            if cell.text == seq!['1'] {
                "TRUE"@
            } else {
                "FALSE"@
            },
        ),
        CellKind::Inline => CellModel::Text(cell.text),
        CellKind::Error => CellModel::Text("#ERROR:"@ + cell.text),
        CellKind::Number => if is_date_style(cell.style, styles) {
            CellModel::DateSerial(cell.text)
        } else {
            CellModel::Text(cell.text)
        },
    }
}

/// `row`, with blank cells behind it up to `width`; never cut short.
pub open spec fn padded(row: Seq<CellModel>, width: nat) -> Seq<CellModel> {
    if row.len() >= width {
        row
    } else {
        row + Seq::new((width - row.len()) as nat, |i: int| CellModel::blank())
    }
}

/// Where in `row` a cell goes: at its place, or behind the last cell where it
/// has none.
pub open spec fn cell_position(row: Seq<CellModel>, place: Option<u32>) -> nat {
    match place {
        Some(p) => p as nat,
        None => row.len(),
    }
}

/// `row` with `value` at `place`, padded up to it.
pub open spec fn placed(row: Seq<CellModel>, place: Option<u32>, value: CellModel) -> Seq<CellModel> {
    padded(row, cell_position(row, place) + 1).update(cell_position(row, place) as int, value)
}

/// One past the last cell of `row` that is not empty.
pub open spec fn content_width(row: Seq<CellModel>) -> nat
    decreases row.len(),
{
    if row.len() == 0 {
        0
    } else if !row.last().is_empty() {
        row.len()
    } else {
        content_width(row.drop_last())
    }
}

/// The width of the sheet when `row` closes: the one fixed before, or else the
/// content width of `row`, which is then the first row.
pub open spec fn sheet_width(width: Option<usize>, row: Seq<CellModel>) -> nat {
    match width {
        Some(w) => w as nat,
        None => content_width(row),
    }
}

/// What one event does to a conversion.
pub enum StepModel {
    /// The conversion goes on, after at most one record.
    Continue(Option<RecordModel>),
    /// The document ended, after at most one record.
    Finished(Option<RecordModel>),
    /// The conversion stops.
    Failed(XmlFailure),
}

/// The record that the end of the document leaves: the open row, unless it is empty.
pub open spec fn flushed(row: Seq<CellModel>) -> Option<RecordModel> {
    if row.len() > 0 {
        Some(RecordModel::Row(row))
    } else {
        None
    }
}

/// The state after `event`, and what the event gave.
pub open spec fn sheet_step(
    m: SheetModel,
    event: XmlEvent,
    shared: Seq<Seq<char>>,
    styles: Seq<StyleInfo>,
) -> (SheetModel, StepModel) {
    match event {
        XmlEvent::Start(tag) => if tag_matches(tag.name@, "row".spec_bytes()) {
            let next = next_row_number(
                m.current_row,
                number_attribute(tag.attributes@, "r".spec_bytes()),
            );
            let gap = skipped_rows(m.current_row, next);
            (
                SheetModel { current_row: next, row: Seq::empty(), ..m },
                StepModel::Continue(
                    if gap > 0 {
                        Some(RecordModel::Gap(gap))
                    } else {
                        None
                    },
                ),
            )
        } else if tag_matches(tag.name@, "c".spec_bytes()) {
            (SheetModel { cell: opened_cell(tag.attributes@), ..m }, StepModel::Continue(None))
        } else if tag_matches(tag.name@, "is".spec_bytes()) {
            (
                SheetModel { cell: PendingModel { text: Seq::empty(), ..m.cell }, ..m },
                StepModel::Continue(None),
            )
        } else {
            (m, StepModel::Continue(None))
        },
        XmlEvent::End(name) => if tag_matches(name@, "c".spec_bytes()) {
            (
                SheetModel {
                    row: placed(m.row, m.cell.place, resolved_cell(m.cell, shared, styles)),
                    cell: PendingModel::fresh(),
                    ..m
                },
                StepModel::Continue(None),
            )
        } else if tag_matches(name@, "row".spec_bytes()) {
            let width = sheet_width(m.width, m.row);
            (
                SheetModel { row: Seq::empty(), width: Some(width as usize), ..m },
                StepModel::Continue(Some(RecordModel::Row(padded(m.row, width)))),
            )
        } else {
            (m, StepModel::Continue(None))
        },
        XmlEvent::Text(raw) => match xml_unescaped(raw@) {
            Ok(text) => (
                SheetModel { cell: PendingModel { text: m.cell.text + text, ..m.cell }, ..m },
                StepModel::Continue(None),
            ),
            Err(message) => (m, StepModel::Failed(XmlFailure::Unescape(message))),
        },
        XmlEvent::Eof => (SheetModel { row: Seq::empty(), ..m }, StepModel::Finished(flushed(m.row))),
        XmlEvent::Malformed(message) => (m, StepModel::Failed(XmlFailure::Malformed(message@))),
        XmlEvent::Empty(_) => (m, StepModel::Continue(None)),
        XmlEvent::Other => (m, StepModel::Continue(None)),
    }
}

impl CellValue {
    /// A cell without text.
    pub fn blank() -> (cell: CellValue)
        ensures
            cell@ == CellModel::blank(),
    {
        CellValue::Text(String::new())
    }

    /// Whether the cell has no text.
    pub fn is_empty(&self) -> (empty: bool)
        ensures
            empty == self@.is_empty(),
    {
        match self {
            CellValue::Text(t) => t.as_str().is_empty(),
            CellValue::DateSerial(t) => t.as_str().is_empty(),
        }
    }
}

/// The text that a cell shows in the end. A date serial shows the timestamp of
/// the Unix time `unix_seconds` that its number stands for; where its text
/// writes no number, so that there is no such time, or where the calendar does
/// not reach the time, it shows its text.
pub open spec fn shown_text(cell: CellModel, unix_seconds: Option<i64>) -> Seq<char> {
    match cell {
        CellModel::Text(text) => text,
        CellModel::DateSerial(text) => match unix_seconds {
            Some(seconds) => match iso_timestamp(seconds) {
                Some(stamp) => stamp,
                None => text,
            },
            None => text,
        },
    }
}

impl CellValue {
    /// The text that the cell shows, given the Unix time that its number stands
    /// for if it is a date serial that writes a number.
    pub fn into_text(self, unix_seconds: Option<i64>) -> (text: String)
        ensures
            text@ == shown_text(self@, unix_seconds),
    {
        match self {
            CellValue::Text(text) => text,
            CellValue::DateSerial(text) => match unix_seconds {
                Some(seconds) => match unix_seconds_to_iso_date(seconds) {
                    Some(stamp) => stamp,
                    None => text,
                },
                None => text,
            },
        }
    }
}

/// Reads the type attribute of a cell.
fn kind_of(t: Option<&Vec<u8>>) -> (kind: CellKind)
    ensures
        kind == cell_kind_of(
            match t {
                Some(v) => Some(v@),
                None => None,
            },
        ),
{
    match t {
        Some(v) => {
            let v = v.as_slice();
            if same_bytes(v, "s".as_bytes()) {
                CellKind::SharedString
            } else if same_bytes(v, "b".as_bytes()) {
                CellKind::Boolean
            } else if same_bytes(v, "inlineStr".as_bytes()) || same_bytes(v, "str".as_bytes()) {
                CellKind::Inline
            } else if same_bytes(v, "e".as_bytes()) {
                CellKind::Error
            } else {
                CellKind::Number
            }
        },
        None => CellKind::Number,
    }
}

/// Reads the address attribute of a cell.
fn place_of(r: Option<&Vec<u8>>) -> (place: Option<u32>)
    ensures
        place == cell_place(
            match r {
                Some(v) => Some(v@),
                None => None,
            },
        ),
{
    match r {
        Some(v) => {
            let text = lossy_text(v.as_slice());
            match parse_cell_ref(text.as_str()) {
                Some(cell) => Some(cell.col - 1),
                None => None,
            }
        },
        None => None,
    }
}

/// Looks up the string that a shared-string cell refers to.
fn shared_text(text: &String, shared: &Vec<String>) -> (found: String)
    ensures
        found@ == shared_string(text@, strings_model(shared@)),
{
    match parse_index(text.as_str()) {
        Some(i) => if i < shared.len() {
            shared[i].clone()
        } else {
            String::new()
        },
        None => String::new(),
    }
}

/// Whether `text` is the one character `1`.
fn is_one(text: &String) -> (one: bool)
    ensures
        one == (text@ == seq!['1']),
{
    let chars = chars_of(text.as_str());
    if chars.len() == 1 && chars[0] == '1' {
        assert(chars@ =~= seq!['1']);
        true
    } else {
        false
    }
}

/// The cell that is open.
#[derive(Debug)]
pub struct PendingCell {
    place: Option<u32>,
    kind: CellKind,
    style: Option<u32>,
    text: String,
}

impl View for PendingCell {
    type V = PendingModel;

    closed spec fn view(&self) -> PendingModel {
        PendingModel { place: self.place, kind: self.kind, style: self.style, text: self.text@ }
    }
}

impl PendingCell {
    fn fresh() -> (cell: PendingCell)
        ensures
            cell@ == PendingModel::fresh(),
    {
        PendingCell { place: None, kind: CellKind::Number, style: None, text: String::new() }
    }

    /// What the cell shows.
    fn resolve(&self, shared: &Vec<String>, styles: &Vec<StyleInfo>) -> (value: CellValue)
        ensures
            value@ == resolved_cell(self@, strings_model(shared@), styles@),
    {
        match self.kind {
            CellKind::SharedString => CellValue::Text(shared_text(&self.text, shared)),
            CellKind::Boolean => CellValue::Text(
                if is_one(&self.text) {
                    String::from_str("TRUE")
                } else {
                    String::from_str("FALSE")
                },
            ),
            CellKind::Inline => CellValue::Text(self.text.clone()),
            CellKind::Error => {
                let mut text = String::from_str("#ERROR:");
                text.append(self.text.as_str());
                CellValue::Text(text)
            },
            CellKind::Number => if style_is_date(self.style, styles) {
                CellValue::DateSerial(self.text.clone())
            } else {
                CellValue::Text(self.text.clone())
            },
        }
    }
}

/// Pads `row` with blank cells up to `width`.
fn pad(row: &mut Vec<CellValue>, width: usize)
    ensures
        cells_model(final(row)@) == padded(cells_model(old(row)@), width as nat),
{
    let ghost before = cells_model(row@);
    if row.len() >= width {
        return ;
    }
    while row.len() < width
        invariant
            before.len() <= row.len() <= width,
            cells_model(row@) == before + Seq::new(
                (row.len() - before.len()) as nat,
                |i: int| CellModel::blank(),
            ),
        decreases width - row.len(),
    {
        let ghost prev = cells_model(row@);
        row.push(CellValue::blank());
        assert(cells_model(row@) =~= prev.push(CellModel::blank()));
        assert(cells_model(row@) =~= before + Seq::new(
            (row.len() - before.len()) as nat,
            |i: int| CellModel::blank(),
        ));
    }
}

/// Puts `value` into `row` at `place`.
fn put(row: &mut Vec<CellValue>, place: Option<u32>, value: CellValue)
    ensures
        cells_model(final(row)@) == placed(cells_model(old(row)@), place, value@),
{
    let ghost before = cells_model(row@);
    let position: usize = match place {
        Some(p) => p as usize,
        None => row.len(),
    };
    assert(before =~= before + Seq::new(0nat, |i: int| CellModel::blank()));
    while row.len() <= position
        invariant
            before.len() <= row.len(),
            row.len() <= position + 1 || row.len() == before.len(),
            cells_model(row@) == before + Seq::new(
                (row.len() - before.len()) as nat,
                |i: int| CellModel::blank(),
            ),
        decreases position + 1 - row.len(),
    {
        let ghost prev = cells_model(row@);
        row.push(CellValue::blank());
        assert(cells_model(row@) =~= prev.push(CellModel::blank()));
        assert(cells_model(row@) =~= before + Seq::new(
            (row.len() - before.len()) as nat,
            |i: int| CellModel::blank(),
        ));
    }
    let ghost wide = cells_model(row@);
    assert(wide =~= padded(before, (position + 1) as nat));
    row.set(position, value);
    assert(cells_model(row@) =~= wide.update(position as int, value@));
}

/// One past the last cell of `row` that is not empty.
fn content_width_of(row: &Vec<CellValue>) -> (width: usize)
    ensures
        width == content_width(cells_model(row@)),
{
    let mut n: usize = row.len();
    assert(cells_model(row@).take(n as int) =~= cells_model(row@));
    while n > 0 && row[n - 1].is_empty()
        invariant
            n <= row.len(),
            content_width(cells_model(row@)) == content_width(cells_model(row@).take(n as int)),
        decreases n,
    {
        assert(cells_model(row@).take(n as int).drop_last() =~= cells_model(row@).take(n - 1));
        n = n - 1;
    }
    n
}

/// What one event gave.
#[derive(Debug)]
pub enum Step {
    /// The conversion goes on, after at most one record.
    Continue(Option<SheetRecord>),
    /// The document ended, after at most one record.
    Finished(Option<SheetRecord>),
    /// The conversion stops.
    Failed(XmlError),
}

pub open spec fn record_model(record: Option<SheetRecord>) -> Option<RecordModel> {
    match record {
        Some(r) => Some(r@),
        None => None,
    }
}

impl View for Step {
    type V = StepModel;

    open spec fn view(&self) -> StepModel {
        match self {
            Step::Continue(r) => StepModel::Continue(record_model(*r)),
            Step::Finished(r) => StepModel::Finished(record_model(*r)),
            Step::Failed(e) => StepModel::Failed(e@),
        }
    }
}

/// A conversion of one worksheet, between two events.
#[derive(Debug)]
pub struct SheetConverter {
    current_row: u32,
    row: Vec<CellValue>,
    cell: PendingCell,
    width: Option<usize>,
}

impl View for SheetConverter {
    type V = SheetModel;

    closed spec fn view(&self) -> SheetModel {
        SheetModel {
            current_row: self.current_row,
            row: cells_model(self.row@),
            cell: self.cell@,
            width: self.width,
        }
    }
}

impl SheetConverter {
    /// A conversion before its first event.
    pub fn new() -> (converter: SheetConverter)
        ensures
            converter@ == SheetModel::initial(),
    {
        let converter = SheetConverter {
            current_row: 0,
            row: Vec::new(),
            cell: PendingCell::fresh(),
            width: None,
        };
        assert(cells_model(converter.row@) =~= Seq::empty());
        converter
    }

    /// Takes the open row, leaving none.
    fn take_row(&mut self) -> (row: Vec<CellValue>)
        ensures
            row == old(self).row,
            final(self)@ == (SheetModel { row: Seq::empty(), ..old(self)@ }),
    {
        let mut row: Vec<CellValue> = Vec::new();
        std::mem::swap(&mut self.row, &mut row);
        assert(cells_model(self.row@) =~= Seq::empty());
        row
    }

    /// Handles one event of the worksheet, with the shared strings and the styles
    /// of its workbook.
    pub fn step(&mut self, event: &XmlEvent, shared: &Vec<String>, styles: &Vec<StyleInfo>) -> (outcome: Step)
        ensures
            (final(self)@, outcome@) == sheet_step(
                old(self)@,
                *event,
                strings_model(shared@),
                styles@,
            ),
    {
        match event {
            XmlEvent::Start(tag) => {
                let name = tag.name.as_slice();
                if tag_eq_ignore_case(name, "row") {
                    let declared = number_of(&tag.attributes, "r");
                    let next: u32 = match declared {
                        Some(n) => n,
                        None => if self.current_row < u32::MAX {
                            self.current_row + 1
                        } else {
                            self.current_row
                        },
                    };
                    let gap: u32 = if next as u64 > self.current_row as u64 + 1 {
                        next - self.current_row - 1
                    } else {
                        0
                    };
                    self.current_row = next;
                    let _ = self.take_row();
                    if gap > 0 {
                        Step::Continue(Some(SheetRecord::Gap(gap)))
                    } else {
                        Step::Continue(None)
                    }
                } else if tag_eq_ignore_case(name, "c") {
                    let place = place_of(find_attribute(&tag.attributes, "r", "r"));
                    let kind = kind_of(find_attribute(&tag.attributes, "t", "t"));
                    let style = number_of(&tag.attributes, "s");
                    self.cell = PendingCell { place, kind, style, text: String::new() };
                    Step::Continue(None)
                } else if tag_eq_ignore_case(name, "is") {
                    self.cell.text = String::new();
                    Step::Continue(None)
                } else {
                    Step::Continue(None)
                }
            },
            XmlEvent::End(name) => {
                let name = name.as_slice();
                if tag_eq_ignore_case(name, "c") {
                    let value = self.cell.resolve(shared, styles);
                    put(&mut self.row, self.cell.place, value);
                    self.cell = PendingCell::fresh();
                    Step::Continue(None)
                } else if tag_eq_ignore_case(name, "row") {
                    let width: usize = match self.width {
                        Some(w) => w,
                        None => content_width_of(&self.row),
                    };
                    self.width = Some(width);
                    pad(&mut self.row, width);
                    let row = self.take_row();
                    Step::Continue(Some(SheetRecord::Row(row)))
                } else {
                    Step::Continue(None)
                }
            },
            XmlEvent::Text(raw) => match unescape(raw.as_slice()) {
                Ok(text) => {
                    self.cell.text.append(text.as_str());
                    Step::Continue(None)
                },
                Err(message) => Step::Failed(XmlError::Unescape(message)),
            },
            XmlEvent::Eof => {
                let row = self.take_row();
                if row.len() > 0 {
                    Step::Finished(Some(SheetRecord::Row(row)))
                } else {
                    Step::Finished(None)
                }
            },
            XmlEvent::Malformed(message) => Step::Failed(XmlError::Malformed(message.clone())),
            XmlEvent::Empty(_) => Step::Continue(None),
            XmlEvent::Other => Step::Continue(None),
        }
    }
}

/// What a conversion gave: the records up to where it ended, and why it ended
/// early if it did.
#[derive(Debug)]
pub struct SheetOutput {
    pub records: Vec<SheetRecord>,
    pub failure: Option<XmlError>,
}

/// A `SheetOutput` as plain data.
pub struct OutputModel {
    pub records: Seq<RecordModel>,
    pub failure: Option<XmlFailure>,
}

impl View for SheetOutput {
    type V = OutputModel;

    open spec fn view(&self) -> OutputModel {
        OutputModel {
            records: records_model(self.records@),
            failure: match self.failure {
                Some(e) => Some(e@),
                None => None,
            },
        }
    }
}

/// A conversion after some events.
pub struct RunModel {
    pub state: SheetModel,
    /// The records given so far.
    pub records: Seq<RecordModel>,
    /// Whether the document ended or the conversion stopped.
    pub ended: bool,
    pub failure: Option<XmlFailure>,
}

pub open spec fn with_record(records: Seq<RecordModel>, record: Option<RecordModel>) -> Seq<RecordModel> {
    match record {
        Some(r) => records.push(r),
        None => records,
    }
}

/// The conversion `run` after one more event.
pub open spec fn run_step(
    run: RunModel,
    event: XmlEvent,
    shared: Seq<Seq<char>>,
    styles: Seq<StyleInfo>,
) -> RunModel {
    let (state, step) = sheet_step(run.state, event, shared, styles);
    match step {
        StepModel::Continue(r) => RunModel {
            state,
            records: with_record(run.records, r),
            ended: false,
            failure: None,
        },
        StepModel::Finished(r) => RunModel {
            state,
            records: with_record(run.records, r),
            ended: true,
            failure: None,
        },
        StepModel::Failed(f) => RunModel {
            state,
            records: run.records,
            ended: true,
            failure: Some(f),
        },
    }
}

/// The conversion after the first `n` of `events`. Events behind the one at
/// which it ended change nothing.
pub open spec fn sheet_run(
    events: Seq<XmlEvent>,
    n: nat,
    shared: Seq<Seq<char>>,
    styles: Seq<StyleInfo>,
) -> RunModel
    decreases n,
{
    if n == 0 {
        RunModel {
            state: SheetModel::initial(),
            records: Seq::empty(),
            ended: false,
            failure: None,
        }
    } else {
        let before = sheet_run(events, (n - 1) as nat, shared, styles);
        if before.ended || n > events.len() {
            before
        } else {
            run_step(before, events[n - 1], shared, styles)
        }
    }
}

/// What the worksheet with the events `events` converts to. A row left open where
/// the events end is given as it stands.
pub open spec fn sheet_output(events: Seq<XmlEvent>, shared: Seq<Seq<char>>, styles: Seq<StyleInfo>) -> OutputModel {
    let run = sheet_run(events, events.len(), shared, styles);
    OutputModel {
        records: if run.ended {
            run.records
        } else {
            with_record(run.records, flushed(run.state.row))
        },
        failure: run.failure,
    }
}

/// A conversion that has ended stays as it is.
pub proof fn lemma_run_ended(
    events: Seq<XmlEvent>,
    k: nat,
    n: nat,
    shared: Seq<Seq<char>>,
    styles: Seq<StyleInfo>,
)
    requires
        k <= n,
        sheet_run(events, k, shared, styles).ended,
    ensures
        sheet_run(events, n, shared, styles) == sheet_run(events, k, shared, styles),
    decreases n,
{
    if k < n {
        lemma_run_ended(events, k, (n - 1) as nat, shared, styles);
    }
}

/// A conversion that has not ended has not failed.
pub proof fn lemma_run_open(events: Seq<XmlEvent>, n: nat, shared: Seq<Seq<char>>, styles: Seq<StyleInfo>)
    ensures
        !sheet_run(events, n, shared, styles).ended ==> sheet_run(
            events,
            n,
            shared,
            styles,
        ).failure is None,
    decreases n,
{
    if n > 0 {
        lemma_run_open(events, (n - 1) as nat, shared, styles);
    }
}

/// Adds the record that a step gave, if it gave one.
fn push_record(records: &mut Vec<SheetRecord>, record: Option<SheetRecord>)
    ensures
        records_model(final(records)@) == with_record(
            records_model(old(records)@),
            record_model(record),
        ),
{
    match record {
        Some(r) => {
            let ghost before = records_model(records@);
            records.push(r);
            assert(records_model(records@) =~= before.push(r@));
        },
        None => {},
    }
}

/// Converts the worksheet whose events are `events`.
pub fn convert_events(events: &Vec<XmlEvent>, shared: &Vec<String>, styles: &Vec<StyleInfo>) -> (output: SheetOutput)
    ensures
        output@ == sheet_output(events@, strings_model(shared@), styles@),
{
    let mut converter = SheetConverter::new();
    let mut records: Vec<SheetRecord> = Vec::new();
    assert(records_model(records@) =~= Seq::empty());
    let mut i: usize = 0;
    while i < events.len()
        invariant
            i <= events.len(),
            !sheet_run(events@, i as nat, strings_model(shared@), styles@).ended,
            converter@ == sheet_run(events@, i as nat, strings_model(shared@), styles@).state,
            records_model(records@) == sheet_run(
                events@,
                i as nat,
                strings_model(shared@),
                styles@,
            ).records,
        decreases events.len() - i,
    {
        let step = converter.step(&events[i], shared, styles);
        proof {
            let texts = strings_model(shared@);
            if sheet_run(events@, (i + 1) as nat, texts, styles@).ended {
                lemma_run_ended(events@, (i + 1) as nat, events@.len(), texts, styles@);
            }
        }
        match step {
            Step::Continue(record) => {
                push_record(&mut records, record);
            },
            Step::Finished(record) => {
                push_record(&mut records, record);
                return SheetOutput { records, failure: None };
            },
            Step::Failed(error) => {
                return SheetOutput { records, failure: Some(error) };
            },
        }
        i = i + 1;
    }
    let row = converter.take_row();
    if row.len() > 0 {
        push_record(&mut records, Some(SheetRecord::Row(row)));
    }
    SheetOutput { records, failure: None }
}

/// The records of one worksheet part, read one at a time: of what the part
/// converts to, no more is held than the row that is open.
pub struct SheetRows<'a> {
    reader: Reader<&'a [u8]>,
    shared: &'a Vec<String>,
    styles: &'a Vec<StyleInfo>,
    converter: SheetConverter,
    done: bool,
    events: Ghost<Seq<XmlEvent>>,
    read: Ghost<nat>,
}

impl<'a> SheetRows<'a> {
    /// The events of the part.
    pub closed spec fn events(&self) -> Seq<XmlEvent> {
        self.events@
    }

    /// How many of the events have been read.
    pub closed spec fn read(&self) -> nat {
        self.read@
    }

    /// The shared strings of the workbook.
    pub closed spec fn shared(&self) -> Seq<Seq<char>> {
        strings_model(self.shared@)
    }

    /// The styles of the workbook.
    pub closed spec fn styles(&self) -> Seq<StyleInfo> {
        self.styles@
    }

    /// The conversion so far.
    pub open spec fn run(&self) -> RunModel {
        sheet_run(self.events(), self.read(), self.shared(), self.styles())
    }

    /// The reader stands behind the events read, and the converter is in the
    /// state that they led to.
    pub closed spec fn wf(&self) -> bool {
        &&& self.read@ <= self.events@.len()
        &&& self.done == self.run().ended
        &&& !self.done ==> pending_events(self.reader) == self.events@.skip(self.read@ as int)
            && self.converter@ == self.run().state
    }

    /// Opens the worksheet part `xml`, with the shared strings and the styles of
    /// its workbook.
    pub fn open(xml: &'a [u8], shared: &'a Vec<String>, styles: &'a Vec<StyleInfo>) -> (rows: SheetRows<'a>)
        ensures
            rows.wf(),
            rows.events() == xml_events(xml@),
            rows.read() == 0,
            rows.shared() == strings_model(shared@),
            rows.styles() == styles@,
    {
        let reader = open_reader(xml);
        assert(xml_events(xml@).skip(0) =~= xml_events(xml@));
        SheetRows {
            reader,
            shared,
            styles,
            converter: SheetConverter::new(),
            done: false,
            events: Ghost(xml_events(xml@)),
            read: Ghost(0),
        }
    }

    /// Reads on to the next record. Gives the record, or the failure that stops
    /// the conversion, or `None` once the part has ended or the conversion has
    /// stopped. What has been given when the conversion has ended is what the
    /// part converts to.
    pub fn next_record(&mut self) -> (next: Option<Result<SheetRecord, XmlError>>)
        requires
            old(self).wf(),
        ensures
            final(self).wf(),
            final(self).events() == old(self).events(),
            final(self).shared() == old(self).shared(),
            final(self).styles() == old(self).styles(),
            old(self).read() <= final(self).read(),
            match next {
                Some(Ok(record)) => old(self).read() < final(self).read() && final(self).run().records
                    == old(self).run().records.push(record@) && final(self).run().failure is None,
                Some(Err(error)) => final(self).run().ended && final(self).run().records == old(
                    self,
                ).run().records && final(self).run().failure == Some(error@),
                None => final(self).run().ended && final(self).run().records == old(
                    self,
                ).run().records && final(self).run().failure == old(self).run().failure,
            },
            final(self).run().ended ==> final(self).run().records == sheet_output(
                final(self).events(),
                final(self).shared(),
                final(self).styles(),
            ).records && final(self).run().failure == sheet_output(
                final(self).events(),
                final(self).shared(),
                final(self).styles(),
            ).failure,
    {
        let ghost events = self.events@;
        let ghost texts = strings_model(self.shared@);
        let ghost styles = self.styles@;
        if self.done {
            proof {
                lemma_run_ended(events, self.read@, events.len(), texts, styles);
            }
            return None;
        }
        proof {
            lemma_run_open(events, self.read@, texts, styles);
        }
        loop
            invariant
                self.wf(),
                !self.done,
                old(self).run().failure is None,
                self.events@ == events,
                events == old(self).events(),
                texts == old(self).shared(),
                styles == old(self).styles(),
                self.shared == old(self).shared,
                self.styles == old(self).styles,
                old(self).read() <= self.read@,
                self.run().records == old(self).run().records,
                self.run().failure is None,
            decreases events.len() - self.read@,
        {
            let ghost before = self.read@;
            let event = next_event(&mut self.reader);
            assert(before < events.len());
            assert(event == events[before as int]);
            proof {
                if !event.is_terminal() {
                    assert(events.skip(before as int).drop_first() =~= events.skip(
                        (before + 1) as int,
                    ));
                }
            }
            self.read = Ghost((before + 1) as nat);
            let step = self.converter.step(&event, self.shared, self.styles);
            proof {
                if self.run().ended {
                    lemma_run_ended(events, self.read@, events.len(), texts, styles);
                }
            }
            match step {
                Step::Continue(Some(record)) => {
                    return Some(Ok(record));
                },
                Step::Continue(None) => {},
                Step::Finished(record) => {
                    self.done = true;
                    return match record {
                        Some(record) => Some(Ok(record)),
                        None => None,
                    };
                },
                Step::Failed(error) => {
                    self.done = true;
                    return Some(Err(error));
                },
            }
        }
    }
}

/// Converts the worksheet part `xml`, with the shared strings and the styles of
/// its workbook, holding all its records.
pub fn convert_sheet(xml: &[u8], shared: &Vec<String>, styles: &Vec<StyleInfo>) -> (output: SheetOutput)
    ensures
        output@ == sheet_output(xml_events(xml@), strings_model(shared@), styles@),
{
    let mut rows = SheetRows::open(xml, shared, styles);
    let mut records: Vec<SheetRecord> = Vec::new();
    assert(records_model(records@) =~= Seq::empty());
    loop
        invariant
            rows.wf(),
            rows.events() == xml_events(xml@),
            rows.shared() == strings_model(shared@),
            rows.styles() == styles@,
            records_model(records@) == rows.run().records,
            rows.run().failure is None,
        decreases rows.events().len() - rows.read(),
    {
        match rows.next_record() {
            Some(Ok(record)) => {
                push_record(&mut records, Some(record));
            },
            Some(Err(error)) => {
                return SheetOutput { records, failure: Some(error) };
            },
            None => {
                return SheetOutput { records, failure: None };
            },
        }
    }
}

/// A row that declares a number beyond the next one gives a gap of as many rows
/// as it skips, and nothing else; the rows of a gap have no cell.
pub proof fn lemma_skipped_rows(
    m: SheetModel,
    tag: XmlTag,
    declared: u32,
    shared: Seq<Seq<char>>,
    styles: Seq<StyleInfo>,
)
    requires
        tag_matches(tag.name@, "row".spec_bytes()),
        number_attribute(tag.attributes@, "r".spec_bytes()) == Some(declared),
        declared > m.current_row + 1,
    ensures
        sheet_step(m, XmlEvent::Start(tag), shared, styles).1 == StepModel::Continue(
            Some(RecordModel::Gap((declared - m.current_row - 1) as u32)),
        ),
        sheet_step(m, XmlEvent::Start(tag), shared, styles).0.current_row == declared,
        sheet_step(m, XmlEvent::Start(tag), shared, styles).0.row.len() == 0,
{
}

/// A gap stands for as many rows as it counts, each without a cell, behind the
/// rows before it.
pub proof fn lemma_gap_rows(records: Seq<RecordModel>, count: u32)
    ensures
        rows_of(records.push(RecordModel::Gap(count))).len() == rows_of(records).len() + count,
        forall|i: int|
            0 <= i < rows_of(records).len() ==> rows_of(records.push(RecordModel::Gap(count)))[i]
                == rows_of(records)[i],
        forall|i: int|
            rows_of(records).len() <= i < rows_of(records).len() + count ==> (#[trigger] rows_of(
                records.push(RecordModel::Gap(count)),
            )[i]).len() == 0,
{
    assert(records.push(RecordModel::Gap(count)).drop_last() =~= records);
}

/// A row record stands for one row, behind the rows before it.
pub proof fn lemma_row_rows(records: Seq<RecordModel>, cells: Seq<CellModel>)
    ensures
        rows_of(records.push(RecordModel::Row(cells))) == rows_of(records).push(cells),
{
    assert(records.push(RecordModel::Row(cells)).drop_last() =~= records);
    assert(rows_of(records) + seq![cells] =~= rows_of(records).push(cells));
}

/// A boolean cell shows `TRUE` where its text is `1`, and `FALSE` otherwise.
pub proof fn lemma_boolean_cell(cell: PendingModel, shared: Seq<Seq<char>>, styles: Seq<StyleInfo>)
    requires
        cell.kind == CellKind::Boolean,
    ensures
        cell.text == seq!['1'] ==> resolved_cell(cell, shared, styles) == CellModel::Text(
            seq!['T', 'R', 'U', 'E'],
        ),
        cell.text != seq!['1'] ==> resolved_cell(cell, shared, styles) == CellModel::Text(
            seq!['F', 'A', 'L', 'S', 'E'],
        ),
{
    reveal_strlit("TRUE");
    reveal_strlit("FALSE");
    assert("TRUE"@ =~= seq!['T', 'R', 'U', 'E']);
    assert("FALSE"@ =~= seq!['F', 'A', 'L', 'S', 'E']);
}

/// A shared-string cell whose text writes an index shows the string at that
/// index, and nothing where the index is beyond the strings.
pub proof fn lemma_shared_string_cell(
    cell: PendingModel,
    index: nat,
    shared: Seq<Seq<char>>,
    styles: Seq<StyleInfo>,
)
    requires
        cell.kind == CellKind::SharedString,
        parse_unsigned(trimmed(cell.text), usize::MAX as nat) == Some(index),
    ensures
        index < shared.len() ==> resolved_cell(cell, shared, styles) == CellModel::Text(
            shared[index as int],
        ),
        index >= shared.len() ==> resolved_cell(cell, shared, styles) == CellModel::Text(
            Seq::empty(),
        ),
{
}

/// A number cell is a date serial only under a style that shows dates: under any
/// other style, and without one, it shows its text.
pub proof fn lemma_number_cell(cell: PendingModel, shared: Seq<Seq<char>>, styles: Seq<StyleInfo>)
    requires
        cell.kind == CellKind::Number,
    ensures
        resolved_cell(cell, shared, styles) is DateSerial <==> is_date_style(cell.style, styles),
        resolved_cell(cell, shared, styles).text() == cell.text,
{
}

/// The width of a sheet, once fixed, stays as it is.
pub proof fn lemma_width_stays(
    m: SheetModel,
    event: XmlEvent,
    shared: Seq<Seq<char>>,
    styles: Seq<StyleInfo>,
)
    requires
        m.width is Some,
    ensures
        sheet_step(m, event, shared, styles).0.width == m.width,
{
}

/// The end of a row gives the row, padded to the width of the sheet, which the
/// first row to end fixes at its content width; it leaves no row open.
pub proof fn lemma_row_end(
    m: SheetModel,
    name: Vec<u8>,
    shared: Seq<Seq<char>>,
    styles: Seq<StyleInfo>,
)
    requires
        tag_matches(name@, "row".spec_bytes()),
        !tag_matches(name@, "c".spec_bytes()),
    ensures
        sheet_step(m, XmlEvent::End(name), shared, styles).1 == StepModel::Continue(
            Some(RecordModel::Row(padded(m.row, sheet_width(m.width, m.row)))),
        ),
        sheet_step(m, XmlEvent::End(name), shared, styles).0.width == Some(
            sheet_width(m.width, m.row) as usize,
        ),
        m.width is None ==> sheet_width(m.width, m.row) == content_width(m.row),
        sheet_step(m, XmlEvent::End(name), shared, styles).0.row.len() == 0,
{
}

/// Padding cuts nothing and changes no cell: it adds blank cells up to the width.
pub proof fn lemma_padded(row: Seq<CellModel>, width: nat)
    ensures
        padded(row, width).len() == if row.len() >= width {
            row.len()
        } else {
            width
        },
        forall|i: int| 0 <= i < row.len() ==> padded(row, width)[i] == row[i],
        forall|i: int| row.len() <= i < width ==> padded(row, width)[i] == CellModel::blank(),
{
}

/// The content width of a row is within it, every cell from it on is empty, and
/// the cell before it is not.
pub proof fn lemma_content_width(row: Seq<CellModel>)
    ensures
        content_width(row) <= row.len(),
        forall|i: int| content_width(row) <= i < row.len() ==> (#[trigger] row[i]).is_empty(),
        content_width(row) > 0 ==> !row[content_width(row) - 1].is_empty(),
    decreases row.len(),
{
    if row.len() > 0 && row.last().is_empty() {
        lemma_content_width(row.drop_last());
        assert forall|i: int| content_width(row) <= i < row.len() implies (#[trigger] row[i]).is_empty() by {
            if i < row.len() - 1 {
                assert(row.drop_last()[i] == row[i]);
            }
        }
    }
}

} // verus!

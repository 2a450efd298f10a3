//! Cell styles: which of them show a number as a date.

use std::collections::BTreeMap;
use crate::text::chars_of;
use crate::text::lossy_text;
use crate::text::parse_u32;
use crate::text::parse_unsigned;
use crate::text::same_bytes;
use crate::text::utf8_lossy;
use crate::xml::attribute_value;
use crate::xml::after_element;
use crate::xml::lemma_closing_index_bounds;
use crate::xml::find_attribute;
use crate::xml::next_event;
use crate::xml::open_reader;
use crate::xml::pending_events;
use crate::xml::skip_element;
use crate::xml::xml_events;
use crate::xml::XmlAttribute;
use crate::xml::XmlError;
use crate::xml::XmlEvent;
use crate::xml::XmlTag;
use vstd::prelude::*;
use vstd::string::StringSliceAdditionalSpecFns;

verus! {

/// What the converter needs to know of one cell style.
#[derive(Debug, Clone, Copy, PartialEq, Eq, Structural)]
pub struct StyleInfo {
    pub is_date: bool,
}

impl Default for StyleInfo {
    fn default() -> (style: StyleInfo)
        ensures
            !style.is_date,
    {
        StyleInfo { is_date: false }
    }
}

/// Whether the style that a cell refers to by `index` shows dates. An index that
/// is absent or beyond `styles` refers to no such style.
pub open spec fn is_date_style(index: Option<u32>, styles: Seq<StyleInfo>) -> bool {
    match index {
        Some(i) => i < styles.len() && styles[i as int].is_date,
        None => false,
    }
}

/// Looks the style `index` up in `styles`.
pub fn style_is_date(index: Option<u32>, styles: &Vec<StyleInfo>) -> (date: bool)
    ensures
        date == is_date_style(index, styles@),
{
    match index {
        Some(i) => (i as usize) < styles.len() && styles[i as usize].is_date,
        None => false,
    }
}

/// Whether the number format `id` is one of those that every workbook has and
/// that show a date or a time.
pub open spec fn is_builtin_date_format(id: u32) -> bool {
    (14 <= id && id <= 22) || (27 <= id && id <= 36) || (45 <= id && id <= 47) || (50 <= id && id
        <= 58) || (67 <= id && id <= 71) || (75 <= id && id <= 81)
}

pub fn builtin_date_format(id: u32) -> (date: bool)
    ensures
        date == is_builtin_date_format(id),
{
    (14 <= id && id <= 22) || (27 <= id && id <= 36) || (45 <= id && id <= 47) || (50 <= id && id
        <= 58) || (67 <= id && id <= 71) || (75 <= id && id <= 81)
}

/// Whether `c` is `y`, `m` or `d`, in either case. No other character becomes one
/// of the three in lower case.
pub open spec fn is_date_letter(c: char) -> bool {
    c == 'y' || c == 'Y' || c == 'm' || c == 'M' || c == 'd' || c == 'D'
}

/// Whether the format code `code` shows a date: it has a `y`, an `m` or a `d`, in
/// either case, and no `#`.
pub open spec fn is_date_format_code(code: Seq<char>) -> bool {
    (exists|i: int| 0 <= i < code.len() && is_date_letter(#[trigger] code[i])) && !code.contains(
        '#',
    )
}

pub fn date_format_code(code: &str) -> (date: bool)
    ensures
        date == is_date_format_code(code@),
{
    let chars = chars_of(code);
    let mut letter: bool = false;
    let mut i: usize = 0;
    while i < chars.len()
        invariant
            i <= chars.len(),
            chars@ == code@,
            letter == (exists|j: int| 0 <= j < i && is_date_letter(#[trigger] chars@[j])),
            forall|j: int| 0 <= j < i ==> chars@[j] != '#',
        decreases chars.len() - i,
    {
        let c: char = chars[i];
        if c == '#' {
            assert(chars@[i as int] == '#');
            return false;
        }
        if c == 'y' || c == 'Y' || c == 'm' || c == 'M' || c == 'd' || c == 'D' {
            letter = true;
        }
        assert(is_date_letter(chars@[i as int]) == is_date_letter(c));
        i = i + 1;
    }
    letter
}

/// The format codes of the number formats that a workbook defines, by identifier.
pub open spec fn formats_model(formats: Map<u32, String>) -> Map<u32, Seq<char>> {
    formats.map_values(|code: String| code@)
}

/// Whether `formats` gives `id` a format code that shows a date.
pub open spec fn is_custom_date_format(formats: Map<u32, Seq<char>>, id: u32) -> bool {
    formats.contains_key(id) && is_date_format_code(formats[id])
}

fn custom_date_format(formats: &BTreeMap<u32, String>, id: u32) -> (date: bool)
    ensures
        date == is_custom_date_format(formats_model(formats@), id),
{
    match formats.get(&id) {
        Some(code) => date_format_code(code.as_str()),
        None => false,
    }
}

/// The value of the attribute `key`, read as a `u32`; a value that is no such
/// number counts as absent.
pub open spec fn number_attribute(attributes: Seq<XmlAttribute>, key: Seq<u8>) -> Option<u32> {
    match attribute_value(attributes, key, key) {
        Some(v) => match parse_unsigned(utf8_lossy(v), u32::MAX as nat) {
            Some(n) => Some(n as u32),
            None => None,
        },
        None => None,
    }
}

/// Reads the attribute `key` as a `u32`.
pub fn number_of(attributes: &Vec<XmlAttribute>, key: &str) -> (number: Option<u32>)
    ensures
        number == number_attribute(attributes@, key.spec_bytes()),
{
    match find_attribute(attributes, key, key) {
        Some(v) => {
            let text = lossy_text(v.as_slice());
            parse_u32(text.as_str())
        },
        None => None,
    }
}

/// Whether a style applies its number format. It does unless `applyNumberFormat`
/// says `false` or writes zero; absent or written otherwise, it does.
pub open spec fn applies_number_format(attributes: Seq<XmlAttribute>) -> bool {
    match attribute_value(
        attributes,
        "applyNumberFormat".spec_bytes(),
        "applyNumberFormat".spec_bytes(),
    ) {
        Some(v) => !(v == "false".spec_bytes() || parse_unsigned(utf8_lossy(v), u32::MAX as nat)
            == Some(0nat)),
        None => true,
    }
}

fn applies_format(attributes: &Vec<XmlAttribute>) -> (applies: bool)
    ensures
        applies == applies_number_format(attributes@),
{
    match find_attribute(attributes, "applyNumberFormat", "applyNumberFormat") {
        Some(v) => {
            if same_bytes(v.as_slice(), "false".as_bytes()) {
                false
            } else {
                let text = lossy_text(v.as_slice());
                match parse_u32(text.as_str()) {
                    Some(n) => n != 0,
                    None => true,
                }
            }
        },
        None => true,
    }
}

/// What a style record says of its number format.
#[derive(Debug, Clone, Copy, PartialEq, Eq, Structural)]
pub struct StyleRecord {
    /// Whether the style applies its number format.
    pub applies: bool,
    /// The identifier of the number format, where the record gives one.
    pub format: Option<u32>,
}

/// What the style record with `attributes` says.
pub open spec fn record_of(attributes: Seq<XmlAttribute>) -> StyleRecord {
    StyleRecord {
        applies: applies_number_format(attributes),
        format: number_attribute(attributes, "numFmtId".spec_bytes()),
    }
}

fn read_record(attributes: &Vec<XmlAttribute>) -> (record: StyleRecord)
    ensures
        record == record_of(attributes@),
{
    StyleRecord { applies: applies_format(attributes), format: number_of(attributes, "numFmtId") }
}

/// The style that `record` declares in a workbook with the number formats
/// `formats`: a date style where it applies its number format and that format
/// is a built-in date format or has a format code that shows a date.
pub open spec fn judged(record: StyleRecord, formats: Map<u32, Seq<char>>) -> StyleInfo {
    StyleInfo {
        is_date: record.applies && match record.format {
            Some(id) => is_builtin_date_format(id) || is_custom_date_format(formats, id),
            None => false,
        },
    }
}

/// The style that a record with `attributes` declares.
pub open spec fn style_of(attributes: Seq<XmlAttribute>, formats: Map<u32, Seq<char>>) -> StyleInfo {
    judged(record_of(attributes), formats)
}

/// The styles that `records` declare, each judged by all of `formats`.
pub open spec fn judged_all(records: Seq<StyleRecord>, formats: Map<u32, Seq<char>>) -> Seq<StyleInfo> {
    Seq::new(records.len(), |i: int| judged(records[i], formats))
}

fn judge(record: &StyleRecord, formats: &BTreeMap<u32, String>) -> (style: StyleInfo)
    ensures
        style == judged(*record, formats_model(formats@)),
{
    let date = match record.format {
        Some(id) => builtin_date_format(id) || custom_date_format(formats, id),
        None => false,
    };
    StyleInfo { is_date: record.applies && date }
}

/// `formats` with the definition that a `numFmt` tag with `attributes` makes,
/// where it has both an identifier and a format code; it takes the place of an
/// earlier definition of the same identifier.
pub open spec fn with_format(formats: Map<u32, Seq<char>>, attributes: Seq<XmlAttribute>) -> Map<u32, Seq<char>> {
    match (
        number_attribute(attributes, "numFmtId".spec_bytes()),
        attribute_value(attributes, "formatCode".spec_bytes(), "formatCode".spec_bytes()),
    ) {
        (Some(id), Some(code)) => formats.insert(id, utf8_lossy(code)),
        _ => formats,
    }
}

fn add_format(formats: &mut BTreeMap<u32, String>, attributes: &Vec<XmlAttribute>)
    ensures
        formats_model(final(formats)@) == with_format(formats_model(old(formats)@), attributes@),
{
    let ghost before = formats@;
    let id = number_of(attributes, "numFmtId");
    let code = find_attribute(attributes, "formatCode", "formatCode");
    match (id, code) {
        (Some(id), Some(code)) => {
            let text = lossy_text(code.as_slice());
            formats.insert(id, text);
            assert(formats_model(formats@) =~= formats_model(before).insert(id, text@));
        },
        _ => {},
    }
}

/// A scan of the styles part, between two events.
#[derive(Debug)]
pub struct StyleScanner {
    formats: BTreeMap<u32, String>,
    in_cell_xfs: bool,
    records: Vec<StyleRecord>,
}

/// A `StyleScanner` as plain data.
pub struct ScanModel {
    /// The number formats defined so far.
    pub formats: Map<u32, Seq<char>>,
    /// Whether the list of cell styles is open.
    pub in_cell_xfs: bool,
    /// The records of the cell styles met so far, in the order of their declaration.
    pub records: Seq<StyleRecord>,
}

impl ScanModel {
    pub open spec fn initial() -> ScanModel {
        ScanModel { formats: Map::empty(), in_cell_xfs: false, records: Seq::empty() }
    }

    /// The cell styles met so far, each judged by all the number formats defined
    /// so far, whether before it or behind it.
    pub open spec fn styles(self) -> Seq<StyleInfo> {
        judged_all(self.records, self.formats)
    }
}

impl View for StyleScanner {
    type V = ScanModel;

    closed spec fn view(&self) -> ScanModel {
        ScanModel {
            formats: formats_model(self.formats@),
            in_cell_xfs: self.in_cell_xfs,
            records: self.records@,
        }
    }
}

/// What a start or empty-element tag does to a scan: `numFmt` defines a number
/// format, `cellXfs` opens the list of cell styles (as a start tag only), and
/// `xf` inside that list declares a cell style.
pub open spec fn scan_tag(scan: ScanModel, name: Seq<u8>, attributes: Seq<XmlAttribute>, opens: bool) -> ScanModel {
    if name == "numFmt".spec_bytes() {
        ScanModel { formats: with_format(scan.formats, attributes), ..scan }
    } else if name == "cellXfs".spec_bytes() && opens {
        ScanModel { in_cell_xfs: true, ..scan }
    } else if name == "xf".spec_bytes() && scan.in_cell_xfs {
        ScanModel { records: scan.records.push(record_of(attributes)), ..scan }
    } else {
        scan
    }
}

/// The scan after `event`.
pub open spec fn scan_step(scan: ScanModel, event: XmlEvent) -> ScanModel {
    match event {
        XmlEvent::Start(tag) => scan_tag(scan, tag.name@, tag.attributes@, true),
        XmlEvent::Empty(tag) => scan_tag(scan, tag.name@, tag.attributes@, false),
        XmlEvent::End(name) => if name@ == "cellXfs".spec_bytes() {
            ScanModel { in_cell_xfs: false, ..scan }
        } else {
            scan
        },
        _ => scan,
    }
}

/// The element whose content a scan passes over after `event`: the one that a
/// start tag `numFmt` opens, or a start tag `xf` in the list of cell styles.
pub open spec fn passed_over(scan: ScanModel, event: XmlEvent) -> Option<Seq<u8>> {
    match event {
        XmlEvent::Start(tag) => if tag.name@ == "numFmt".spec_bytes() || (tag.name@
            == "xf".spec_bytes() && scan.in_cell_xfs) {
            Some(tag.name@)
        } else {
            None
        },
        _ => None,
    }
}

/// Why a styles part is not well-formed.
pub enum ScanFailure {
    /// The scan met a `Malformed` event; holds its message.
    Malformed(Seq<char>),
    /// The document ended inside an element that the scan passes over.
    Unclosed,
}

/// The cell styles that a scan in the state `scan` finds in the events `rest`,
/// each judged by all the number formats of the part, or the failure where the
/// document is not well-formed.
pub open spec fn styles_from(rest: Seq<XmlEvent>, scan: ScanModel) -> Result<Seq<StyleInfo>, ScanFailure>
    decreases rest.len(),
{
    if rest.len() == 0 {
        Ok(scan.styles())
    } else {
        match rest[0] {
            XmlEvent::Eof => Ok(scan.styles()),
            XmlEvent::Malformed(message) => Err(ScanFailure::Malformed(message@)),
            event => match passed_over(scan, event) {
                Some(name) => match after_element(rest.drop_first(), name) {
                    Some(behind) => styles_from(behind, scan_step(scan, event)),
                    None => Err(ScanFailure::Unclosed),
                },
                None => styles_from(rest.drop_first(), scan_step(scan, event)),
            },
        }
    }
}

/// The cell styles of the styles part with the events `events`.
pub open spec fn styles_of(events: Seq<XmlEvent>) -> Result<Seq<StyleInfo>, ScanFailure> {
    styles_from(events, ScanModel::initial())
}

impl StyleScanner {
    /// A scan before its first event.
    pub fn new() -> (scanner: StyleScanner)
        ensures
            scanner@ == ScanModel::initial(),
    {
        let scanner = StyleScanner {
            formats: BTreeMap::new(),
            in_cell_xfs: false,
            records: Vec::new(),
        };
        assert(formats_model(scanner.formats@) =~= Map::empty());
        scanner
    }

    fn tag(&mut self, tag: &XmlTag, opens: bool)
        ensures
            final(self)@ == scan_tag(old(self)@, tag.name@, tag.attributes@, opens),
    {
        let name = tag.name.as_slice();
        if same_bytes(name, "numFmt".as_bytes()) {
            add_format(&mut self.formats, &tag.attributes);
        } else if same_bytes(name, "cellXfs".as_bytes()) && opens {
            self.in_cell_xfs = true;
        } else if same_bytes(name, "xf".as_bytes()) && self.in_cell_xfs {
            let record = read_record(&tag.attributes);
            self.records.push(record);
        }
    }

    /// Handles one event of the styles part. Gives the name of the element that
    /// the event opens where its content is to be passed over.
    pub fn step<'a>(&mut self, event: &'a XmlEvent) -> (pass: Option<&'a Vec<u8>>)
        ensures
            final(self)@ == scan_step(old(self)@, *event),
            match passed_over(old(self)@, *event) {
                Some(name) => pass matches Some(found) && found@ == name,
                None => pass is None,
            },
    {
        match event {
            XmlEvent::Start(tag) => {
                let name = tag.name.as_slice();
                let pass = same_bytes(name, "numFmt".as_bytes()) || (same_bytes(
                    name,
                    "xf".as_bytes(),
                ) && self.in_cell_xfs);
                self.tag(tag, true);
                if pass {
                    Some(&tag.name)
                } else {
                    None
                }
            },
            XmlEvent::Empty(tag) => {
                self.tag(tag, false);
                None
            },
            XmlEvent::End(name) => {
                if same_bytes(name.as_slice(), "cellXfs".as_bytes()) {
                    self.in_cell_xfs = false;
                }
                None
            },
            _ => None,
        }
    }

    /// The cell styles met, in the order of their declaration, each judged by all
    /// the number formats met.
    pub fn into_styles(self) -> (styles: Vec<StyleInfo>)
        ensures
            styles@ == self@.styles(),
    {
        let mut styles: Vec<StyleInfo> = Vec::new();
        let mut i: usize = 0;
        while i < self.records.len()
            invariant
                i <= self.records.len(),
                styles@ == judged_all(self.records@.take(i as int), formats_model(self.formats@)),
            decreases self.records.len() - i,
        {
            let style = judge(&self.records[i], &self.formats);
            styles.push(style);
            assert(styles@ =~= judged_all(
                self.records@.take(i + 1),
                formats_model(self.formats@),
            ));
            i = i + 1;
        }
        assert(self.records@.take(i as int) =~= self.records@);
        styles
    }
}

/// Reads the styles part `xml`: one entry for each cell style, in the order of
/// their declaration. A part that is not well-formed is `Malformed`, with the
/// tokenizer's message.
pub fn parse_styles(xml: &[u8]) -> (parsed: Result<Vec<StyleInfo>, XmlError>)
    ensures
        match styles_of(xml_events(xml@)) {
            Ok(styles) => parsed matches Ok(found) && found@ == styles,
            Err(ScanFailure::Malformed(message)) => parsed matches Err(XmlError::Malformed(m))
                && m@ == message,
            Err(ScanFailure::Unclosed) => parsed matches Err(XmlError::Malformed(_)),
        },
{
    let mut reader = open_reader(xml);
    let mut scanner = StyleScanner::new();
    loop
        invariant
            styles_of(xml_events(xml@)) == styles_from(pending_events(reader), scanner@),
        decreases pending_events(reader).len(),
    {
        let ghost rest = pending_events(reader);
        let event = next_event(&mut reader);
        match event {
            XmlEvent::Eof => {
                return Ok(scanner.into_styles());
            },
            XmlEvent::Malformed(message) => {
                return Err(XmlError::Malformed(message));
            },
            _ => {},
        }
        match scanner.step(&event) {
            Some(name) => {
                proof {
                    lemma_closing_index_bounds(rest.drop_first(), name@, 0, 0);
                }
                match skip_element(&mut reader, name.as_slice()) {
                    Some(message) => {
                        return Err(XmlError::Malformed(message));
                    },
                    None => {},
                }
            },
            None => {},
        }
    }
}

/// A style that says not to apply its number format shows no dates, whatever
/// that format is.
pub proof fn lemma_format_not_applied(attributes: Seq<XmlAttribute>, formats: Map<u32, Seq<char>>)
    requires
        !applies_number_format(attributes),
    ensures
        !style_of(attributes, formats).is_date,
{
}

/// A style that applies its number format shows dates where the format is a
/// built-in date format.
pub proof fn lemma_builtin_date_style(attributes: Seq<XmlAttribute>, formats: Map<u32, Seq<char>>, id: u32)
    requires
        applies_number_format(attributes),
        number_attribute(attributes, "numFmtId".spec_bytes()) == Some(id),
        is_builtin_date_format(id),
    ensures
        style_of(attributes, formats).is_date,
{
}

/// A cell that refers to no style, or to one beyond the styles, is under no date style.
pub proof fn lemma_style_out_of_range(index: Option<u32>, styles: Seq<StyleInfo>)
    requires
        index matches Some(i) ==> i >= styles.len(),
    ensures
        !is_date_style(index, styles),
{
}

/// A number format counts for every style of the part, whether it is defined
/// before the style or behind it: the styles of a scan are those of its records,
/// in their order, each judged by the formats that the scan has met.
pub proof fn lemma_styles_judged_by_all_formats(scan: ScanModel, i: int)
    requires
        0 <= i < scan.records.len(),
    ensures
        scan.styles().len() == scan.records.len(),
        scan.styles()[i] == judged(scan.records[i], scan.formats),
{
}

/// A format defined behind a style record changes what that record declares: an
/// applied format with a format code that shows a date makes it a date style.
pub proof fn lemma_format_defined_later(scan: ScanModel, attributes: Seq<XmlAttribute>, i: int, id: u32)
    requires
        0 <= i < scan.records.len(),
        scan.records[i] == (StyleRecord { applies: true, format: Some(id) }),
        is_custom_date_format(with_format(scan.formats, attributes), id),
    ensures
        scan_tag(scan, "numFmt".spec_bytes(), attributes, false).styles()[i].is_date,
{
}

} // verus!

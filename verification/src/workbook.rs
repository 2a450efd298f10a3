//! The workbook: its sheets, the parts that hold them, and its date system.

use crate::text::chars_of;
use crate::text::lossy_text;
use crate::text::same_bytes;
use crate::text::same_text;
use crate::text::utf8_lossy;
use crate::xml::attribute_value;
use crate::xml::find_attribute;
use crate::xml::next_event;
use crate::xml::open_reader;
use crate::xml::pending_events;
use crate::xml::tag_eq_ignore_case;
use crate::xml::tag_matches;
use crate::xml::unescape;
use crate::xml::xml_events;
use crate::xml::xml_unescaped;
use crate::xml::XmlAttribute;
use crate::xml::XmlError;
use crate::xml::XmlEvent;
use crate::xml::XmlFailure;
use crate::xml::XmlTag;
use vstd::prelude::*;
use vstd::string::StringExecFns;
use vstd::string::StringSliceAdditionalSpecFns;

verus! {

/// A sheet of the workbook: the name it shows and the part that holds it.
#[derive(Debug, Clone)]
pub struct SheetInfo {
    pub name: String,
    pub path_in_zip: String,
}

/// A `SheetInfo` as plain data.
pub struct SheetInfoModel {
    pub name: Seq<char>,
    pub path_in_zip: Seq<char>,
}

impl View for SheetInfo {
    type V = SheetInfoModel;

    open spec fn view(&self) -> SheetInfoModel {
        SheetInfoModel { name: self.name@, path_in_zip: self.path_in_zip@ }
    }
}

pub open spec fn sheets_model(sheets: Seq<SheetInfo>) -> Seq<SheetInfoModel> {
    Seq::new(sheets.len(), |i: int| sheets[i]@)
}

/// A relationship of the workbook: an identifier and the part it stands for.
#[derive(Debug, Clone)]
pub struct Relationship {
    pub id: String,
    pub path_in_zip: String,
}

/// A `Relationship` as plain data.
pub struct RelationshipModel {
    pub id: Seq<char>,
    pub path_in_zip: Seq<char>,
}

impl View for Relationship {
    type V = RelationshipModel;

    open spec fn view(&self) -> RelationshipModel {
        RelationshipModel { id: self.id@, path_in_zip: self.path_in_zip@ }
    }
}

pub open spec fn relationships_model(rels: Seq<Relationship>) -> Seq<RelationshipModel> {
    Seq::new(rels.len(), |i: int| rels[i]@)
}

/// `s` without the slashes that lead it.
pub open spec fn without_leading_slashes(s: Seq<char>) -> Seq<char>
    decreases s.len(),
{
    if s.len() > 0 && s[0] == '/' {
        without_leading_slashes(s.drop_first())
    } else {
        s
    }
}

/// The part that the target `target` of a relationship names: the target below
/// `xl/`, whether or not slashes lead it.
pub open spec fn part_path(target: Seq<char>) -> Seq<char> {
    "xl/"@ + without_leading_slashes(target)
}

/// Builds the path of the part that `target` names.
pub fn part_path_of(target: &str) -> (path: String)
    ensures
        path@ == part_path(target@),
{
    let chars = chars_of(target);
    let n: usize = chars.len();
    let mut k: usize = 0;
    assert(chars@.skip(0) =~= chars@);
    while k < n && chars[k] == '/'
        invariant
            k <= n == chars.len(),
            without_leading_slashes(chars@) == without_leading_slashes(chars@.skip(k as int)),
        decreases n - k,
    {
        assert(chars@.skip(k as int).drop_first() =~= chars@.skip(k + 1));
        k = k + 1;
    }
    let ghost rest = chars@.skip(k as int);
    assert(without_leading_slashes(rest) == rest);
    let mut path = String::from_str("xl/");
    let mut i: usize = k;
    assert(rest.take(0) =~= Seq::<char>::empty());
    while i < n
        invariant
            k <= i <= n == chars.len(),
            rest == chars@.skip(k as int),
            path@ == "xl/"@ + rest.take(i - k),
        decreases n - i,
    {
        path.push(chars[i]);
        assert(rest.take(i - k + 1) =~= rest.take(i - k).push(chars@[i as int]));
        assert(path@ =~= "xl/"@ + rest.take(i - k + 1));
        i = i + 1;
    }
    assert(rest.take(n - k) =~= rest);
    path
}

/// The relationship that a tag with `attributes` declares, if it has both an
/// identifier (`Id` or `r:Id`) and a target.
pub open spec fn declared_relationship(attributes: Seq<XmlAttribute>) -> Option<RelationshipModel> {
    match (
        attribute_value(attributes, "Id".spec_bytes(), "r:Id".spec_bytes()),
        attribute_value(attributes, "Target".spec_bytes(), "Target".spec_bytes()),
    ) {
        (Some(id), Some(target)) => Some(
            RelationshipModel { id: utf8_lossy(id), path_in_zip: part_path(utf8_lossy(target)) },
        ),
        _ => None,
    }
}

/// `rels` after `event`: a start or empty-element tag `Relationship` that
/// declares a relationship adds it.
pub open spec fn relationship_step(rels: Seq<RelationshipModel>, event: XmlEvent) -> Seq<RelationshipModel> {
    match event {
        XmlEvent::Start(tag) => with_relationship(rels, tag),
        XmlEvent::Empty(tag) => with_relationship(rels, tag),
        _ => rels,
    }
}

pub open spec fn with_relationship(rels: Seq<RelationshipModel>, tag: XmlTag) -> Seq<RelationshipModel> {
    if tag_matches(tag.name@, "Relationship".spec_bytes()) {
        match declared_relationship(tag.attributes@) {
            Some(r) => rels.push(r),
            None => rels,
        }
    } else {
        rels
    }
}

/// The relationships that the events `rest` add to `rels`, or the failure where
/// the document is not well-formed.
pub open spec fn relationships_from(rest: Seq<XmlEvent>, rels: Seq<RelationshipModel>) -> Result<Seq<RelationshipModel>, XmlFailure>
    decreases rest.len(),
{
    if rest.len() == 0 {
        Ok(rels)
    } else {
        match rest[0] {
            XmlEvent::Eof => Ok(rels),
            XmlEvent::Malformed(message) => Err(XmlFailure::Malformed(message@)),
            event => relationships_from(rest.drop_first(), relationship_step(rels, event)),
        }
    }
}

/// The part that `rels` gives to the identifier `id`: that of its last declaration.
pub open spec fn target_of(rels: Seq<RelationshipModel>, id: Seq<char>) -> Option<Seq<char>>
    decreases rels.len(),
{
    if rels.len() == 0 {
        None
    } else if rels.last().id == id {
        Some(rels.last().path_in_zip)
    } else {
        target_of(rels.drop_last(), id)
    }
}

fn add_relationship(rels: &mut Vec<Relationship>, tag: &XmlTag)
    ensures
        relationships_model(final(rels)@) == with_relationship(
            relationships_model(old(rels)@),
            *tag,
        ),
{
    if tag_eq_ignore_case(tag.name.as_slice(), "Relationship") {
        let id = find_attribute(&tag.attributes, "Id", "r:Id");
        let target = find_attribute(&tag.attributes, "Target", "Target");
        match (id, target) {
            (Some(id), Some(target)) => {
                let ghost before = relationships_model(rels@);
                let target = lossy_text(target.as_slice());
                let r = Relationship {
                    id: lossy_text(id.as_slice()),
                    path_in_zip: part_path_of(target.as_str()),
                };
                rels.push(r);
                assert(relationships_model(rels@) =~= before.push(r@));
            },
            _ => {},
        }
    }
}

/// Handles one event of the relationships part.
pub fn add_relationship_event(rels: &mut Vec<Relationship>, event: &XmlEvent)
    ensures
        relationships_model(final(rels)@) == relationship_step(
            relationships_model(old(rels)@),
            *event,
        ),
{
    match event {
        XmlEvent::Start(tag) => add_relationship(rels, tag),
        XmlEvent::Empty(tag) => add_relationship(rels, tag),
        _ => {},
    }
}

/// Reads the relationships part `xml` of a workbook: each relationship that has
/// an identifier and a target, in the order of declaration.
pub fn parse_workbook_rels(xml: &[u8]) -> (parsed: Result<Vec<Relationship>, XmlError>)
    ensures
        match relationships_from(xml_events(xml@), Seq::empty()) {
            Ok(rels) => parsed matches Ok(found) && relationships_model(found@) == rels,
            Err(failure) => parsed matches Err(e) && e@ == failure,
        },
{
    let mut reader = open_reader(xml);
    let mut rels: Vec<Relationship> = Vec::new();
    assert(relationships_model(rels@) =~= Seq::empty());
    loop
        invariant
            relationships_from(xml_events(xml@), Seq::empty()) == relationships_from(
                pending_events(reader),
                relationships_model(rels@),
            ),
        decreases pending_events(reader).len(),
    {
        let event = next_event(&mut reader);
        match event {
            XmlEvent::Eof => {
                return Ok(rels);
            },
            XmlEvent::Malformed(message) => {
                return Err(XmlError::Malformed(message));
            },
            _ => {},
        }
        add_relationship_event(&mut rels, &event);
    }
}

/// Looks up the part that `rels` gives to `id`.
pub fn find_target<'a>(rels: &'a Vec<Relationship>, id: &str) -> (found: Option<&'a String>)
    ensures
        match target_of(relationships_model(rels@), id@) {
            Some(path) => found matches Some(p) && p@ == path,
            None => found is None,
        },
{
    let ghost all = relationships_model(rels@);
    let mut i: usize = rels.len();
    assert(all.take(i as int) =~= all);
    while i > 0
        invariant
            i <= rels.len(),
            all == relationships_model(rels@),
            target_of(all, id@) == target_of(all.take(i as int), id@),
        decreases i,
    {
        assert(all.take(i as int).drop_last() =~= all.take(i - 1));
        if same_text(rels[i - 1].id.as_str(), id) {
            return Some(&rels[i - 1].path_in_zip);
        }
        i = i - 1;
    }
    None
}

/// What is known of a workbook while its part is read.
#[derive(Debug)]
pub struct Workbook {
    /// The sheets met so far, in the order of their declaration.
    pub sheets: Vec<SheetInfo>,
    /// Whether day serials count from 1904 rather than from 1900.
    pub is_1904: bool,
}

/// A `Workbook` as plain data.
pub struct WorkbookModel {
    pub sheets: Seq<SheetInfoModel>,
    pub is_1904: bool,
}

impl View for Workbook {
    type V = WorkbookModel;

    open spec fn view(&self) -> WorkbookModel {
        WorkbookModel { sheets: sheets_model(self.sheets@), is_1904: self.is_1904 }
    }
}

impl WorkbookModel {
    pub open spec fn initial() -> WorkbookModel {
        WorkbookModel { sheets: Seq::empty(), is_1904: false }
    }
}

/// The sheet that a tag with `attributes` declares: it has a name, an identifier
/// (`id` or `r:id`), and `rels` gives that identifier a part.
pub open spec fn declared_sheet(attributes: Seq<XmlAttribute>, rels: Seq<RelationshipModel>) -> Option<SheetInfoModel> {
    match (
        attribute_value(attributes, "name".spec_bytes(), "name".spec_bytes()),
        attribute_value(attributes, "id".spec_bytes(), "r:id".spec_bytes()),
    ) {
        (Some(name), Some(id)) => match target_of(rels, utf8_lossy(id)) {
            Some(path) => Some(SheetInfoModel { name: utf8_lossy(name), path_in_zip: path }),
            None => None,
        },
        _ => None,
    }
}

/// The date system after a tag `workbookPr` with `attributes`: that of 1904 where
/// `date1904` reads `1` or `true`, that of 1900 where it reads anything else, and
/// the one there was where it is absent or cannot be unescaped.
pub open spec fn declared_date_system(attributes: Seq<XmlAttribute>, before: bool) -> bool {
    match attribute_value(attributes, "date1904".spec_bytes(), "date1904".spec_bytes()) {
        Some(v) => match xml_unescaped(v) {
            Ok(text) => text == "1"@ || text == "true"@,
            Err(_) => before,
        },
        None => before,
    }
}

pub open spec fn workbook_tag(book: WorkbookModel, tag: XmlTag, rels: Seq<RelationshipModel>) -> WorkbookModel {
    if tag.name@ == "sheet".spec_bytes() {
        match declared_sheet(tag.attributes@, rels) {
            Some(sheet) => WorkbookModel { sheets: book.sheets.push(sheet), ..book },
            None => book,
        }
    } else if tag.name@ == "workbookPr".spec_bytes() {
        WorkbookModel { is_1904: declared_date_system(tag.attributes@, book.is_1904), ..book }
    } else {
        book
    }
}

/// The workbook after `event`: a start or empty-element tag `sheet` may declare
/// a sheet, and one named `workbookPr` may set the date system.
pub open spec fn workbook_step(book: WorkbookModel, event: XmlEvent, rels: Seq<RelationshipModel>) -> WorkbookModel {
    match event {
        XmlEvent::Start(tag) => workbook_tag(book, tag, rels),
        XmlEvent::Empty(tag) => workbook_tag(book, tag, rels),
        _ => book,
    }
}

/// The workbook that the events `rest` make of `book`, or the failure where the
/// document is not well-formed.
pub open spec fn workbook_from(rest: Seq<XmlEvent>, book: WorkbookModel, rels: Seq<RelationshipModel>) -> Result<WorkbookModel, XmlFailure>
    decreases rest.len(),
{
    if rest.len() == 0 {
        Ok(book)
    } else {
        match rest[0] {
            XmlEvent::Eof => Ok(book),
            XmlEvent::Malformed(message) => Err(XmlFailure::Malformed(message@)),
            event => workbook_from(rest.drop_first(), workbook_step(book, event, rels), rels),
        }
    }
}

impl Workbook {
    /// A workbook before the first event of its part.
    pub fn new() -> (book: Workbook)
        ensures
            book@ == WorkbookModel::initial(),
    {
        let book = Workbook { sheets: Vec::new(), is_1904: false };
        assert(sheets_model(book.sheets@) =~= Seq::empty());
        book
    }

    fn tag(&mut self, tag: &XmlTag, rels: &Vec<Relationship>)
        ensures
            final(self)@ == workbook_tag(old(self)@, *tag, relationships_model(rels@)),
    {
        let name = tag.name.as_slice();
        if same_bytes(name, "sheet".as_bytes()) {
            let shown = find_attribute(&tag.attributes, "name", "name");
            let id = find_attribute(&tag.attributes, "id", "r:id");
            match (shown, id) {
                (Some(shown), Some(id)) => {
                    let id = lossy_text(id.as_slice());
                    match find_target(rels, id.as_str()) {
                        Some(path) => {
                            let ghost before = sheets_model(self.sheets@);
                            let sheet = SheetInfo {
                                name: lossy_text(shown.as_slice()),
                                path_in_zip: path.clone(),
                            };
                            self.sheets.push(sheet);
                            assert(sheets_model(self.sheets@) =~= before.push(sheet@));
                        },
                        None => {},
                    }
                },
                _ => {},
            }
        } else if same_bytes(name, "workbookPr".as_bytes()) {
            match find_attribute(&tag.attributes, "date1904", "date1904") {
                Some(v) => match unescape(v.as_slice()) {
                    Ok(text) => {
                        self.is_1904 = same_text(text.as_str(), "1") || same_text(
                            text.as_str(),
                            "true",
                        );
                    },
                    Err(_) => {},
                },
                None => {},
            }
        }
    }

    /// Handles one event of the workbook part, with the relationships `rels` of
    /// the workbook.
    pub fn step(&mut self, event: &XmlEvent, rels: &Vec<Relationship>)
        ensures
            final(self)@ == workbook_step(old(self)@, *event, relationships_model(rels@)),
    {
        match event {
            XmlEvent::Start(tag) => self.tag(tag, rels),
            XmlEvent::Empty(tag) => self.tag(tag, rels),
            _ => {},
        }
    }
}

/// Reads the workbook part `xml`: its sheets that `rels` gives a part, in the
/// order of their declaration, and whether its day serials count from 1904.
pub fn parse_workbook(xml: &[u8], rels: &Vec<Relationship>) -> (parsed: Result<(Vec<SheetInfo>, bool), XmlError>)
    ensures
        match workbook_from(
            xml_events(xml@),
            WorkbookModel::initial(),
            relationships_model(rels@),
        ) {
            Ok(book) => parsed matches Ok(found) && sheets_model(found.0@) == book.sheets
                && found.1 == book.is_1904,
            Err(failure) => parsed matches Err(e) && e@ == failure,
        },
{
    let mut reader = open_reader(xml);
    let mut book = Workbook::new();
    loop
        invariant
            workbook_from(xml_events(xml@), WorkbookModel::initial(), relationships_model(rels@))
                == workbook_from(pending_events(reader), book@, relationships_model(rels@)),
        decreases pending_events(reader).len(),
    {
        let event = next_event(&mut reader);
        match event {
            XmlEvent::Eof => {
                return Ok((book.sheets, book.is_1904));
            },
            XmlEvent::Malformed(message) => {
                return Err(XmlError::Malformed(message));
            },
            _ => {},
        }
        book.step(&event, rels);
    }
}

pub open spec fn is_name_char(c: char) -> bool {
    ('a' <= c && c <= 'z') || ('A' <= c && c <= 'Z') || ('0' <= c && c <= '9') || c == '-' || c
        == '_'
}

/// The character that stands for `c` in a file name: `c` itself, in lower case,
/// where it is an ASCII letter, a digit, `-` or `_`, and `_` otherwise.
pub open spec fn filename_char(c: char) -> char {
    if 'A' <= c && c <= 'Z' {
        ((c as u8 + 32) as u8) as char
    } else if is_name_char(c) {
        c
    } else {
        '_'
    }
}

pub open spec fn has_name_char(name: Seq<char>) -> bool {
    exists|i: int| 0 <= i < name.len() && is_name_char(#[trigger] name[i])
}

/// The file name for a sheet named `name`: every character replaced as
/// `filename_char` says, or `sheet` where none of them is kept.
pub open spec fn filename_of(name: Seq<char>) -> Seq<char> {
    if has_name_char(name) {
        Seq::new(name.len(), |i: int| filename_char(name[i]))
    } else {
        "sheet"@
    }
}

/// The file name, without extension, for the sheet named `name`.
pub fn to_lowercase_filename(name: &str) -> (file: String)
    ensures
        file@ == filename_of(name@),
{
    let chars = chars_of(name);
    let mut file = String::new();
    let mut kept: bool = false;
    let mut i: usize = 0;
    while i < chars.len()
        invariant
            i <= chars.len(),
            chars@ == name@,
            kept == has_name_char(chars@.take(i as int)),
            file@ == Seq::new(i as nat, |j: int| filename_char(chars@[j])),
        decreases chars.len() - i,
    {
        let c: char = chars[i];
        let ghost before = chars@.take(i as int);
        let ghost after = chars@.take(i + 1);
        assert(after[i as int] == c);
        assert forall|j: int| 0 <= j < i implies before[j] == after[j] by {}
        if 'A' <= c && c <= 'Z' {
            file.push(((c as u8) + 32) as char);
            kept = true;
        } else if ('a' <= c && c <= 'z') || ('0' <= c && c <= '9') || c == '-' || c == '_' {
            file.push(c);
            kept = true;
        } else {
            file.push('_');
            proof {
                if kept {
                    let j = choose|j: int|
                        0 <= j < before.len() && is_name_char(#[trigger] before[j]);
                    assert(is_name_char(after[j]));
                }
            }
        }
        assert(file@ =~= Seq::new((i + 1) as nat, |j: int| filename_char(chars@[j])));
        i = i + 1;
    }
    assert(chars@.take(i as int) =~= chars@);
    if kept {
        file
    } else {
        String::from_str("sheet")
    }
}

} // verus!

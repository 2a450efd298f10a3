use libxcsv::sheet::convert_events;
use libxcsv::sheet::SheetConverter;
use libxcsv::SheetRows;
use libxcsv::sheet::Step;
use libxcsv::xml::XmlAttribute;
use libxcsv::xml::XmlEvent;
use libxcsv::xml::XmlTag;
use libxcsv::CellValue;
use libxcsv::SheetRecord;
use libxcsv::StyleInfo;
use libxcsv::XmlError;

fn start(name: &str, attributes: &[(&str, &str)]) -> XmlEvent {
    XmlEvent::Start(XmlTag {
        name: name.as_bytes().to_vec(),
        attributes: attributes
            .iter()
            .map(|(k, v)| XmlAttribute { key: k.as_bytes().to_vec(), value: v.as_bytes().to_vec() })
            .collect(),
    })
}

fn end(name: &str) -> XmlEvent {
    XmlEvent::End(name.as_bytes().to_vec())
}

fn text(raw: &str) -> XmlEvent {
    XmlEvent::Text(raw.as_bytes().to_vec())
}

fn cell(attributes: &[(&str, &str)], raw: &str) -> Vec<XmlEvent> {
    vec![start("c", attributes), start("v", &[]), text(raw), end("v"), end("c")]
}

fn plain(cells: &[CellValue]) -> Vec<String> {
    cells
        .iter()
        .map(|c| match c {
            CellValue::Text(t) => t.clone(),
            CellValue::DateSerial(t) => format!("serial:{}", t),
        })
        .collect()
}

fn rows(records: &[SheetRecord]) -> Vec<Vec<String>> {
    let mut out = Vec::new();
    for record in records {
        match record {
            SheetRecord::Gap(count) => {
                for _ in 0..*count {
                    out.push(Vec::new());
                }
            }
            SheetRecord::Row(cells) => out.push(plain(cells)),
        }
    }
    out
}

#[test]
fn row_five_after_row_two_leaves_two_empty_rows() {
    let mut events = vec![start("row", &[("r", "2")])];
    events.extend(cell(&[("r", "A2")], "two"));
    events.push(end("row"));
    events.push(start("row", &[("r", "5")]));
    events.extend(cell(&[("r", "A5")], "five"));
    events.push(end("row"));
    events.push(XmlEvent::Eof);
    let output = convert_events(&events, &Vec::new(), &Vec::new());
    assert!(output.failure.is_none());
    assert_eq!(
        rows(&output.records),
        vec![vec![], vec!["two".to_string()], vec![], vec![], vec!["five".to_string()]]
    );
}

#[test]
fn shared_string_cell_shows_the_string_at_its_index() {
    let shared: Vec<String> = ["zero", "one", "two", "three"].iter().map(|s| s.to_string()).collect();
    let mut events = vec![start("row", &[("r", "1")])];
    events.extend(cell(&[("r", "A1"), ("t", "s")], "3"));
    events.extend(cell(&[("r", "B1"), ("t", "s")], "99"));
    events.extend(cell(&[("r", "C1"), ("t", "s")], "0"));
    events.push(end("row"));
    let output = convert_events(&events, &shared, &Vec::new());
    assert_eq!(rows(&output.records), vec![vec!["three".to_string(), String::new(), "zero".to_string()]]);
}

#[test]
fn number_cell_under_a_date_style_is_a_date_serial() {
    let styles = vec![StyleInfo { is_date: false }, StyleInfo { is_date: true }];
    let mut events = vec![start("row", &[])];
    events.extend(cell(&[("s", "1")], "44197"));
    events.extend(cell(&[("s", "0")], "44197"));
    events.extend(cell(&[("s", "2")], "44197"));
    events.extend(cell(&[("s", "1"), ("t", "str")], "44197"));
    events.extend(cell(&[("s", "1"), ("t", "n")], "x"));
    events.extend(cell(&[("s", "one")], "1"));
    events.push(end("row"));
    let output = convert_events(&events, &Vec::new(), &styles);
    assert_eq!(
        rows(&output.records),
        vec![vec!["serial:44197", "44197", "44197", "44197", "serial:x", "1"]]
    );
}

#[test]
fn date_serial_shows_its_timestamp_or_its_text() {
    let serial = || CellValue::DateSerial("44197".to_string());
    assert_eq!(serial().into_text(Some(1609459200)), "2021-01-01T00:00:00.000Z");
    assert_eq!(serial().into_text(None), "44197");
    assert_eq!(serial().into_text(Some(i64::MAX)), "44197");
    assert_eq!(CellValue::Text("44197".to_string()).into_text(Some(1609459200)), "44197");
    assert!(CellValue::blank().is_empty());
    assert!(CellValue::DateSerial(String::new()).is_empty());
    assert!(!serial().is_empty());
}

#[test]
fn events_without_an_end_leave_the_open_row() {
    let mut events = vec![start("row", &[("r", "1")])];
    events.extend(cell(&[], "a"));
    let output = convert_events(&events, &Vec::new(), &Vec::new());
    assert!(output.failure.is_none());
    assert_eq!(rows(&output.records), vec![vec!["a".to_string()]]);
    let output = convert_events(&Vec::new(), &Vec::new(), &Vec::new());
    assert!(output.failure.is_none());
    assert!(output.records.is_empty());
}

#[test]
fn events_behind_the_end_change_nothing() {
    let mut events = vec![start("row", &[("r", "1")])];
    events.extend(cell(&[], "a"));
    events.push(end("row"));
    events.push(XmlEvent::Eof);
    events.push(start("row", &[("r", "9")]));
    events.extend(cell(&[], "b"));
    events.push(end("row"));
    let output = convert_events(&events, &Vec::new(), &Vec::new());
    assert_eq!(rows(&output.records), vec![vec!["a".to_string()]]);

    let events = vec![
        start("row", &[("r", "2")]),
        XmlEvent::Malformed("broken".to_string()),
        end("row"),
    ];
    let output = convert_events(&events, &Vec::new(), &Vec::new());
    assert_eq!(rows(&output.records), vec![Vec::<String>::new()]);
    match output.failure {
        Some(XmlError::Malformed(message)) => assert_eq!(message, "broken"),
        other => panic!("{:?}", other),
    }
}

#[test]
fn converter_takes_events_one_by_one() {
    let shared = Vec::new();
    let styles = Vec::new();
    let mut converter = SheetConverter::new();
    let mut step = |event: XmlEvent| converter.step(&event, &shared, &styles);
    assert!(matches!(step(text("stray")), Step::Continue(None)));
    assert!(matches!(step(start("row", &[("r", "1")])), Step::Continue(None)));
    assert!(matches!(step(start("row", &[("r", "4")])), Step::Continue(Some(SheetRecord::Gap(2)))));
    assert!(matches!(step(start("row", &[("r", "2")])), Step::Continue(None)));
    assert!(matches!(step(start("row", &[])), Step::Continue(None)));
    assert!(matches!(step(start("row", &[("r", "4294967295")])), Step::Continue(Some(SheetRecord::Gap(4294967291)))));
    assert!(matches!(step(start("row", &[])), Step::Continue(None)));
    assert!(matches!(step(start("c", &[("r", "C7"), ("t", "e")])), Step::Continue(None)));
    assert!(matches!(step(text("#N")), Step::Continue(None)));
    assert!(matches!(step(XmlEvent::Other), Step::Continue(None)));
    assert!(matches!(step(text("/A")), Step::Continue(None)));
    assert!(matches!(step(text("&bad;")), Step::Failed(XmlError::Unescape(_))));
    assert!(matches!(step(end("c")), Step::Continue(None)));
    assert!(matches!(step(end("c")), Step::Continue(None)));
    match step(end("row")) {
        Step::Continue(Some(SheetRecord::Row(cells))) => {
            assert_eq!(plain(&cells), vec!["", "", "#ERROR:#N/A", ""]);
        }
        other => panic!("{:?}", other),
    }
    match step(end("row")) {
        Step::Continue(Some(SheetRecord::Row(cells))) => {
            assert_eq!(plain(&cells), vec!["", "", ""]);
        }
        other => panic!("{:?}", other),
    }
    assert!(matches!(step(start("c", &[])), Step::Continue(None)));
    assert!(matches!(step(text("dropped")), Step::Continue(None)));
    assert!(matches!(step(start("is", &[])), Step::Continue(None)));
    assert!(matches!(step(text("kept")), Step::Continue(None)));
    assert!(matches!(step(end("c")), Step::Continue(None)));
    match step(XmlEvent::Eof) {
        Step::Finished(Some(SheetRecord::Row(cells))) => assert_eq!(plain(&cells), vec!["kept"]),
        other => panic!("{:?}", other),
    }
    assert!(matches!(step(XmlEvent::Eof), Step::Finished(None)));
}

#[test]
fn records_are_read_one_at_a_time() {
    let xml = br#"<sheetData><row r="2"><c r="B2"><v>b</v></c></row><row r="4"><c r="A4" t="b"><v>1</v></c></row><row r="5"><c><v>open</v></c>"#;
    let shared = Vec::new();
    let styles = Vec::new();
    let mut rows = SheetRows::open(xml, &shared, &styles);
    assert!(matches!(rows.next_record(), Some(Ok(SheetRecord::Gap(1)))));
    match rows.next_record() {
        Some(Ok(SheetRecord::Row(cells))) => assert_eq!(plain(&cells), vec!["", "b"]),
        other => panic!("{:?}", other),
    }
    assert!(matches!(rows.next_record(), Some(Ok(SheetRecord::Gap(1)))));
    match rows.next_record() {
        Some(Ok(SheetRecord::Row(cells))) => assert_eq!(plain(&cells), vec!["TRUE", ""]),
        other => panic!("{:?}", other),
    }
    match rows.next_record() {
        Some(Ok(SheetRecord::Row(cells))) => assert_eq!(plain(&cells), vec!["open"]),
        other => panic!("{:?}", other),
    }
    assert!(rows.next_record().is_none());
    assert!(rows.next_record().is_none());
}

#[test]
fn reading_stops_at_the_failure() {
    let xml = br#"<sheetData><row r="1"><c><v>a</v></c></row><row r="2"><c><v>&nope;</v></c></row><row r="3"><c><v>c</v></c></row></sheetData>"#;
    let shared = Vec::new();
    let styles = Vec::new();
    let mut rows = SheetRows::open(xml, &shared, &styles);
    match rows.next_record() {
        Some(Ok(SheetRecord::Row(cells))) => assert_eq!(plain(&cells), vec!["a"]),
        other => panic!("{:?}", other),
    }
    match rows.next_record() {
        Some(Err(XmlError::Unescape(message))) => assert_eq!(
            message,
            "Error while escaping character at range 1..5: Unrecognized escape symbol: \"nope\""
        ),
        other => panic!("{:?}", other),
    }
    assert!(rows.next_record().is_none());
    assert!(rows.next_record().is_none());

    let mut rows = SheetRows::open(b"<a></b>", &shared, &styles);
    match rows.next_record() {
        Some(Err(XmlError::Malformed(message))) => assert_eq!(message, "Expecting </a> found </b>"),
        other => panic!("{:?}", other),
    }
    assert!(rows.next_record().is_none());

    let mut rows = SheetRows::open(b"", &shared, &styles);
    assert!(rows.next_record().is_none());
}

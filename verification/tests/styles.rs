use libxcsv::parse_styles;
use libxcsv::styles::builtin_date_format;
use libxcsv::styles::date_format_code;
use libxcsv::styles::style_is_date;
use libxcsv::styles::StyleScanner;
use libxcsv::xml::XmlAttribute;
use libxcsv::xml::XmlEvent;
use libxcsv::xml::XmlTag;
use libxcsv::StyleInfo;
use libxcsv::XmlError;

fn dates(xml: &str) -> Vec<bool> {
    parse_styles(xml.as_bytes()).unwrap().iter().map(|s| s.is_date).collect()
}

fn tag(name: &str, attributes: &[(&str, &str)]) -> XmlTag {
    XmlTag {
        name: name.as_bytes().to_vec(),
        attributes: attributes
            .iter()
            .map(|(k, v)| XmlAttribute { key: k.as_bytes().to_vec(), value: v.as_bytes().to_vec() })
            .collect(),
    }
}

#[test]
fn builtin_date_formats_are_the_six_ranges() {
    let expected: Vec<u32> = (14..=22)
        .chain(27..=36)
        .chain(45..=47)
        .chain(50..=58)
        .chain(67..=71)
        .chain(75..=81)
        .collect();
    let found: Vec<u32> = (0..200).filter(|id| builtin_date_format(*id)).collect();
    assert_eq!(found, expected);
    assert!(!builtin_date_format(u32::MAX));
}

#[test]
fn format_code_shows_a_date_by_its_letters() {
    assert!(date_format_code("yyyy-mm-dd"));
    assert!(date_format_code("DD/MM/YYYY"));
    assert!(date_format_code("h:mm"));
    assert!(date_format_code("d"));
    assert!(!date_format_code("0.00"));
    assert!(!date_format_code(""));
    assert!(!date_format_code("#,##0.00 \"d\""));
    assert!(!date_format_code("yyyy#"));
    assert!(!date_format_code("General"));
    assert!(date_format_code("[$-409]mmm"));
}

#[test]
fn styles_come_in_the_order_of_declaration() {
    assert_eq!(
        dates(
            r##"<styleSheet>
                <numFmts count="2">
                    <numFmt numFmtId="164" formatCode="yyyy\-mm\-dd"/>
                    <numFmt numFmtId="165" formatCode="#,##0.00"/>
                </numFmts>
                <cellStyleXfs><xf numFmtId="14"/></cellStyleXfs>
                <cellXfs count="6">
                    <xf numFmtId="0"/>
                    <xf numFmtId="14"/>
                    <xf numFmtId="164" applyNumberFormat="1"><alignment horizontal="left"/></xf>
                    <xf numFmtId="165" applyNumberFormat="1"/>
                    <xf numFmtId="999"/>
                    <xf/>
                </cellXfs>
                <cellStyles><xf numFmtId="14"/></cellStyles>
            </styleSheet>"##
        ),
        vec![false, true, true, false, false, false]
    );
}

#[test]
fn format_is_applied_unless_switched_off() {
    assert_eq!(
        dates(
            r#"<cellXfs>
                <xf numFmtId="14"/>
                <xf numFmtId="14" applyNumberFormat="1"/>
                <xf numFmtId="14" applyNumberFormat="true"/>
                <xf numFmtId="14" applyNumberFormat="0"/>
                <xf numFmtId="14" applyNumberFormat="false"/>
                <xf numFmtId="14" applyNumberFormat="00"/>
                <xf numFmtId="14" applyNumberFormat=""/>
                <xf numFmtId="fourteen"/>
                <xf applyNumberFormat="1"/>
            </cellXfs>"#
        ),
        vec![true, true, true, false, false, false, true, false, false]
    );
}

#[test]
fn format_defined_later_counts_for_earlier_style() {
    assert_eq!(
        dates(
            r#"<styleSheet><cellXfs><xf numFmtId="170"/></cellXfs><numFmts><numFmt numFmtId="170" formatCode="dd"/></numFmts><cellXfs><xf numFmtId="170"/></cellXfs></styleSheet>"#
        ),
        vec![true, true]
    );
    assert_eq!(
        dates(
            "<styleSheet><cellXfs><xf numFmtId='164'/></cellXfs><numFmts><numFmt numFmtId='164' formatCode='yyyy-mm-dd'/></numFmts></styleSheet>"
        ),
        vec![true]
    );
    assert_eq!(
        dates(
            r#"<styleSheet><cellXfs><xf numFmtId="170"/><xf numFmtId="171"/></cellXfs><numFmt numFmtId="170" formatCode="dd"/><numFmt numFmtId="171" formatCode="0.0"/><numFmt numFmtId="170" formatCode="0"/><numFmt numFmtId="171" formatCode="mm"/></styleSheet>"#
        ),
        vec![false, true]
    );
}

#[test]
fn last_definition_of_a_format_counts() {
    assert_eq!(
        dates(
            r#"<styleSheet><numFmt numFmtId="170" formatCode="dd"/><numFmt numFmtId="170" formatCode="0.0"/><cellXfs><xf numFmtId="170"/></cellXfs></styleSheet>"#
        ),
        vec![false]
    );
}

#[test]
fn content_of_a_style_record_is_passed_over() {
    assert_eq!(
        dates(r#"<cellXfs><xf numFmtId="14"><xf numFmtId="14"><xf numFmtId="14"/></xf></xf><xf numFmtId="1"/></cellXfs>"#),
        vec![true, false]
    );
}

#[test]
fn styles_part_without_styles_is_empty() {
    assert_eq!(dates(""), Vec::<bool>::new());
    assert_eq!(dates("<styleSheet/>"), Vec::<bool>::new());
    assert_eq!(dates(r#"<styleSheet><xf numFmtId="14"/></styleSheet>"#), Vec::<bool>::new());
}

#[test]
fn malformed_styles_part_is_an_error() {
    assert!(matches!(
        parse_styles(br#"<styleSheet><cellXfs></styleSheet>"#),
        Err(XmlError::Malformed(_))
    ));
    assert!(matches!(
        parse_styles(br#"<cellXfs><xf numFmtId="14"><alignment/>"#),
        Err(XmlError::Malformed(_))
    ));
    assert!(matches!(
        parse_styles(br#"<numFmt numFmtId="164" formatCode="dd"><cellXfs>"#),
        Err(XmlError::Malformed(_))
    ));
}

#[test]
fn scanner_takes_events_one_by_one() {
    let mut scanner = StyleScanner::new();
    let events = vec![
        XmlEvent::Empty(tag("xf", &[("numFmtId", "14")])),
        XmlEvent::Empty(tag("numFmt", &[("numFmtId", "200"), ("formatCode", "mmm")])),
        XmlEvent::Start(tag("cellXfs", &[])),
        XmlEvent::Empty(tag("xf", &[("numFmtId", "200")])),
        XmlEvent::Text(b"text".to_vec()),
        XmlEvent::Empty(tag("xf", &[("numFmtId", "2")])),
        XmlEvent::End(b"cellXfs".to_vec()),
        XmlEvent::Empty(tag("xf", &[("numFmtId", "14")])),
    ];
    for event in &events {
        assert!(scanner.step(event).is_none());
    }
    let open = XmlEvent::Start(tag("numFmt", &[("numFmtId", "201"), ("formatCode", "yy")]));
    assert_eq!(scanner.step(&open), Some(&b"numFmt".to_vec()));
    let outside = XmlEvent::Start(tag("xf", &[("numFmtId", "201")]));
    assert!(scanner.step(&outside).is_none());
    let list = XmlEvent::Start(tag("cellXfs", &[]));
    assert!(scanner.step(&list).is_none());
    let inside = XmlEvent::Start(tag("xf", &[("numFmtId", "201")]));
    assert_eq!(scanner.step(&inside), Some(&b"xf".to_vec()));
    let later = XmlEvent::Empty(tag("xf", &[("numFmtId", "202")]));
    assert!(scanner.step(&later).is_none());
    let defined = XmlEvent::Empty(tag("numFmt", &[("numFmtId", "202"), ("formatCode", "d")]));
    assert!(scanner.step(&defined).is_none());
    let again = XmlEvent::Empty(tag("numFmt", &[("numFmtId", "200"), ("formatCode", "0.00")]));
    assert!(scanner.step(&again).is_none());
    assert_eq!(
        scanner.into_styles(),
        vec![
            StyleInfo { is_date: false },
            StyleInfo { is_date: false },
            StyleInfo { is_date: true },
            StyleInfo { is_date: true }
        ]
    );
}

#[test]
fn style_index_beyond_the_styles_is_no_date() {
    let styles = vec![StyleInfo { is_date: true }, StyleInfo { is_date: false }];
    assert!(style_is_date(Some(0), &styles));
    assert!(!style_is_date(Some(1), &styles));
    assert!(!style_is_date(Some(2), &styles));
    assert!(!style_is_date(Some(u32::MAX), &styles));
    assert!(!style_is_date(None, &styles));
    assert!(!StyleInfo::default().is_date);
}

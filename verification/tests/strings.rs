use libxcsv::read_shared_strings;
use libxcsv::shared_strings::StringCollector;
use libxcsv::xml::XmlEvent;
use libxcsv::xml::XmlTag;
use libxcsv::XmlError;

#[test]
fn strings_come_in_the_order_of_declaration() {
    let strings = read_shared_strings(
        br#"<sst><si><t>b</t></si><si><t>a</t></si><si><t>b</t></si><si><t></t></si><si></si></sst>"#,
    )
    .unwrap();
    assert_eq!(strings, vec!["b", "a", "b", "", ""]);
}

#[test]
fn runs_of_one_string_are_joined() {
    let strings = read_shared_strings(
        br#"<sst><si><r><rPr><b/></rPr><t>bold</t></r><r><t xml:space="preserve"> and plain</t></r></si></sst>"#,
    )
    .unwrap();
    assert_eq!(strings, vec!["bold and plain"]);
}

#[test]
fn text_is_unescaped_and_otherwise_kept() {
    let strings = read_shared_strings(
        "<sst><si><t>  &lt;a&gt; &amp; &#65;&#x42; \u{e9}\n</t>\n</si></sst>".as_bytes(),
    )
    .unwrap();
    assert_eq!(strings, vec!["  <a> & AB \u{e9}\n\n"]);
}

#[test]
fn text_outside_string_items_is_not_read() {
    let strings =
        read_shared_strings(br#"<sst>&nope; stray<si><t>in</t></si>&nope;</sst>"#).unwrap();
    assert_eq!(strings, vec!["in"]);
}

#[test]
fn empty_element_item_is_the_empty_string() {
    let strings = read_shared_strings(br#"<sst><si/><si><t>x</t></si></sst>"#).unwrap();
    assert_eq!(strings, vec!["", "x"]);
    let strings = read_shared_strings(b"<sst><si/><si><t>a</t></si></sst>").unwrap();
    assert_eq!(strings, vec!["", "a"]);
    let strings =
        read_shared_strings(br#"<sst><si><t>a</t></si><x:si/><si></si><SI/><t/></sst>"#).unwrap();
    assert_eq!(strings, vec!["a", "", "", ""]);
}

#[test]
fn bad_text_in_a_string_item_is_an_error() {
    match read_shared_strings(br#"<sst><si><t>&nope;</t></si></sst>"#) {
        Err(XmlError::Unescape(message)) => assert_eq!(
            message,
            "Error while escaping character at range 1..5: Unrecognized escape symbol: \"nope\""
        ),
        other => panic!("{:?}", other),
    }
    assert!(matches!(
        read_shared_strings(b"<sst><si><t>\xff</t></si></sst>"),
        Err(XmlError::Unescape(_))
    ));
}

#[test]
fn malformed_strings_part_is_an_error() {
    assert!(matches!(
        read_shared_strings(br#"<sst><si><t>a</t></sx></sst>"#),
        Err(XmlError::Malformed(_))
    ));
}

#[test]
fn strings_part_without_items_is_empty() {
    assert_eq!(read_shared_strings(b"").unwrap(), Vec::<String>::new());
    assert_eq!(read_shared_strings(b"<sst/>").unwrap(), Vec::<String>::new());
}

#[test]
fn collector_takes_events_one_by_one() {
    let mut collector = StringCollector::new();
    let si = || XmlTag { name: b"si".to_vec(), attributes: Vec::new() };
    assert!(collector.step(&XmlEvent::Text(b"&nope;".to_vec())).is_ok());
    assert!(collector.step(&XmlEvent::Start(si())).is_ok());
    assert!(collector.step(&XmlEvent::Text(b"a&amp;".to_vec())).is_ok());
    assert!(collector.step(&XmlEvent::Other).is_ok());
    assert!(collector.step(&XmlEvent::Text(b"b".to_vec())).is_ok());
    assert!(matches!(
        collector.step(&XmlEvent::Text(b"&nope;".to_vec())),
        Err(XmlError::Unescape(_))
    ));
    assert!(collector.step(&XmlEvent::End(b"x:si".to_vec())).is_ok());
    assert!(collector.step(&XmlEvent::End(b"si".to_vec())).is_ok());
    assert!(collector.step(&XmlEvent::Empty(si())).is_ok());
    assert!(collector.step(&XmlEvent::End(b"si".to_vec())).is_ok());
    assert_eq!(collector.into_strings(), vec!["a&b", "a&b", "", "a&b"]);
}

use base64::Engine;
use ruble::embedded::extract_embedded_pdf;
use ruble::errors::InvoiceError;
use ruble::xml::XmlDoc;
use ruble::xml::XmlNode;
use ruble::xml::XmlNodeKind;

fn elem(name: &str, end: usize) -> XmlNode {
    XmlNode {
        kind: XmlNodeKind::Element,
        name: name.to_string(),
        text: String::new(),
        attrs: Vec::new(),
        end,
    }
}

fn container(end: usize) -> XmlNode {
    XmlNode {
        kind: XmlNodeKind::Other,
        name: String::new(),
        text: String::new(),
        attrs: Vec::new(),
        end,
    }
}

#[test]
fn first_descendant_prefers_document_order_over_depth() {
    // container > root > a > b > X(deep), then X(shallow) directly under root:
    // the deep occurrence comes earlier in pre-order and must win.
    let doc = XmlDoc {
        nodes: vec![
            container(6),     // 0: document container
            elem("root", 6),  // 1
            elem("a", 5),     // 2
            elem("b", 5),     // 3
            elem("X", 5),     // 4: deep but earlier
            elem("X", 6),     // 5: shallow but later
        ],
    };
    assert_eq!(doc.find_descendant(1, "X"), Some(4));
}

#[test]
fn first_descendant_never_matches_the_start_node() {
    // a node bearing the searched name with no matching descendant yields
    // nothing: the search covers the nodes strictly below the start
    let doc = XmlDoc {
        nodes: vec![
            container(3),  // 0: document container
            elem("X", 3),  // 1: bears the name itself
            elem("Y", 3),  // 2: its only descendant
        ],
    };
    assert_eq!(doc.find_descendant(1, "X"), None);
    assert_eq!(doc.find_descendant(1, "Y"), Some(2));
}

#[test]
fn first_descendant_order_stability_from_xml() {
    let xml = "<root><a><b><X>deep</X></b></a><X>shallow</X></root>";
    let doc = ruble::parse::parse_xml(xml).expect("parse");
    let root = doc.root_element().expect("root element");
    // the deep-but-earlier occurrence wins over the shallow-but-later one
    let found = doc.find_descendant(root, "X").expect("a match");
    assert_eq!(doc.node_text(found).cloned(), Some("deep".to_string()));
    assert_eq!(doc.find_text(root, "X"), Some("deep".to_string()));
}

#[test]
fn embedded_absent_when_no_matching_element() {
    let r = extract_embedded_pdf("<Invoice><ID>1</ID></Invoice>").expect("no error");
    assert!(r.is_none());
    let r2 = extract_embedded_pdf(
        "<Invoice><EmbeddedDocumentBinaryObject mimeCode=\"text/plain\">aGVsbG8=\
         </EmbeddedDocumentBinaryObject></Invoice>",
    )
    .expect("no error");
    assert!(r2.is_none());
}

#[test]
fn embedded_absent_when_payload_whitespace_only() {
    let xml = "<Invoice><EmbeddedDocumentBinaryObject mimeCode=\"application/pdf\">\n \t \
               </EmbeddedDocumentBinaryObject></Invoice>";
    let r = extract_embedded_pdf(xml).expect("no error");
    assert!(r.is_none());
}

#[test]
fn embedded_without_filename_attribute() {
    let xml = "<Invoice><EmbeddedDocumentBinaryObject mimeCode=\"application/pdf\">\
               aGVsbG8=</EmbeddedDocumentBinaryObject></Invoice>";
    let e = extract_embedded_pdf(xml).expect("no error").expect("present");
    assert_eq!(e.filename, None);
    assert_eq!(e.bytes, b"hello");
}

#[test]
fn embedded_bad_payload_is_a_decode_error() {
    let xml = "<Invoice><EmbeddedDocumentBinaryObject mimeCode=\"application/pdf\">\
               !!!not-base64!!!</EmbeddedDocumentBinaryObject></Invoice>";
    let err = extract_embedded_pdf(xml).unwrap_err();
    assert!(matches!(err, InvoiceError::Decode(_)));
}

fn embed_payload(payload: &str) -> String {
    format!(
        "<Invoice><EmbeddedDocumentBinaryObject mimeCode=\"application/pdf\">{}\
         </EmbeddedDocumentBinaryObject></Invoice>",
        payload
    )
}

#[test]
fn base64_round_trip_arbitrary_bytes() {
    let mut all: Vec<u8> = Vec::new();
    for b in 0..=255u8 {
        all.push(b);
    }
    let cases: Vec<Vec<u8>> = vec![
        vec![0],
        vec![255],
        vec![1, 2],
        vec![1, 2, 3],
        vec![1, 2, 3, 4],
        b"hello world".to_vec(),
        all,
    ];
    for bytes in cases {
        let encoded = base64::engine::general_purpose::STANDARD.encode(&bytes);
        let extracted = extract_embedded_pdf(&embed_payload(&encoded))
            .expect("round trip decodes")
            .expect("payload present");
        assert_eq!(extracted.bytes, bytes);
    }
}

#[test]
fn base64_rejects_non_canonical_input() {
    // wrong length
    let err = extract_embedded_pdf(&embed_payload("aGVsbG8")).unwrap_err();
    assert!(matches!(err, InvoiceError::Decode(_)));
    // non-canonical trailing bits carried into the padding
    let err2 = extract_embedded_pdf(&embed_payload("aB==")).unwrap_err();
    assert!(matches!(err2, InvoiceError::Decode(_)));
}

#[test]
fn whitespace_set_matches_std_over_all_code_points() {
    for u in 0..=0x10FFFFu32 {
        if let Some(c) = char::from_u32(u) {
            assert_eq!(
                c.is_whitespace(),
                ruble::text::is_whitespace_value(u),
                "code point {u:#x}"
            );
        }
    }
}

//! Extraction of an embedded base64 document from the invoice XML.
use vstd::prelude::*;
use vstd::utf8::encode_utf8;
use crate::b64::b64_decode_bytes;
use crate::b64::spec_b64_decode;
use crate::errors::InvoiceError;
use crate::parse::parse_xml;
use crate::parse::spec_parse_parents;
use crate::parse::spec_parses_to;
use crate::parse::spec_parse_ok;
use crate::text::spec_trim;
use crate::text::trim_str;
use crate::xml::XmlDoc;
use crate::xml::XmlNodeKind;
use crate::xml::string_eq_str;

verus! {

/// An embedded document: its optional declared filename, passed through
/// verbatim, and its decoded bytes.
#[derive(Debug, Clone)]
pub struct EmbeddedPdf {
    pub filename: Option<String>,
    pub bytes: Vec<u8>,
}

/// Whether node `j` is the kind of element the extractor looks for: named
/// `EmbeddedDocumentBinaryObject`, with a `mimeCode` attribute equal to
/// `application/pdf`.
pub open spec fn spec_embedded_match(doc: XmlDoc, j: int) -> bool {
    &&& doc.nodes@[j].kind is Element
    &&& doc.nodes@[j].name@ == "EmbeddedDocumentBinaryObject"@
    &&& doc.spec_attr(j, "mimeCode"@) == Some("application/pdf"@)
}

/// The first matching element at or after `j`, in document order.
pub open spec fn spec_embedded_from(doc: XmlDoc, j: int) -> Option<int>
    decreases doc.nodes@.len() - j,
{
    if j >= doc.nodes@.len() {
        None
    } else if spec_embedded_match(doc, j) {
        Some(j)
    } else {
        spec_embedded_from(doc, j + 1)
    }
}

/// The first matching element of the whole document.
pub open spec fn spec_embedded_node(doc: XmlDoc) -> Option<int> {
    spec_embedded_from(doc, 0)
}

/// The payload text of node `k`: its text content, or empty when it has none.
pub open spec fn spec_payload(doc: XmlDoc, k: int) -> Seq<char> {
    match doc.spec_node_text(k) {
        Option::None => Seq::empty(),
        Option::Some(t) => t,
    }
}

/// What embedded-object extraction yields on a well-formed document `doc`:
/// `Ok(None)` when no element matches or the matched payload trims to empty,
/// the decoded bytes and verbatim filename when the trimmed payload is
/// canonical base64, and a `Decode` error otherwise.
pub open spec fn spec_embedded_result(
    doc: XmlDoc,
    r: Result<Option<EmbeddedPdf>, InvoiceError>,
) -> bool {
    match spec_embedded_node(doc) {
        Option::None => r matches Ok(o) && o is None,
        Option::Some(k) => {
            let t = spec_trim(spec_payload(doc, k));
            if t.len() == 0 {
                r matches Ok(o) && o is None
            } else {
                match spec_b64_decode(encode_utf8(t)) {
                    Option::Some(bs) => r matches Ok(o) && o matches Some(e) && e.bytes@ == bs
                        && (match doc.spec_attr(k, "filename"@) {
                        Option::Some(f) => e.filename matches Some(fs) && fs@ == f,
                        Option::None => e.filename is None,
                    }),
                    Option::None => r matches Err(e) && e is Decode,
                }
            }
        },
    }
}

/// Finds the first matching element of the document, in document order.
fn find_embedded_node(doc: &XmlDoc) -> (r: Option<usize>)
    requires
        doc.wf(),
    ensures
        match r {
            Option::Some(k) => spec_embedded_node(*doc) == Some(k as int) && k
                < doc.nodes@.len(),
            Option::None => spec_embedded_node(*doc) is None,
        },
{
    let n = doc.nodes.len();
    let mut j: usize = 0;
    while j < n
        invariant
            doc.wf(),
            0 <= j <= n,
            n == doc.nodes@.len(),
            spec_embedded_node(*doc) == spec_embedded_from(*doc, j as int),
        decreases n - j,
    {
        let node = &doc.nodes[j];
        if matches!(node.kind, XmlNodeKind::Element) && string_eq_str(
            &node.name,
            "EmbeddedDocumentBinaryObject",
        ) {
            match doc.attribute(j, "mimeCode") {
                Option::Some(v) => {
                    if string_eq_str(v, "application/pdf") {
                        return Some(j);
                    }
                },
                Option::None => {},
            }
        }
        j = j + 1;
    }
    None
}

/// Extracts the embedded document from a parsed arena document.
///
/// An absent match and an empty or whitespace-only payload are "absent", not
/// errors; only a malformed base64 payload fails, with a `Decode` error.
pub fn extract_embedded_from(doc: &XmlDoc) -> (r: Result<Option<EmbeddedPdf>, InvoiceError>)
    requires
        doc.wf(),
    ensures
        spec_embedded_result(*doc, r),
{
    let k = match find_embedded_node(doc) {
        Option::None => {
            return Ok(None);
        },
        Option::Some(k) => k,
    };
    let payload: String = match doc.node_text(k) {
        Option::None => String::new(),
        Option::Some(t) => trim_str(t.as_str()),
    };
    proof {
        if doc.spec_node_text(k as int) is None {
            assert(spec_trim(Seq::<char>::empty()) =~= Seq::<char>::empty());
        }
    }
    if payload.as_str().is_empty() {
        return Ok(None);
    }
    let bytes = match b64_decode_bytes(payload.as_str().as_bytes()) {
        Result::Ok(v) => v,
        Result::Err(m) => {
            return Err(InvoiceError::Decode(m));
        },
    };
    let filename: Option<String> = match doc.attribute(k, "filename") {
        Option::Some(f) => Some(f.clone()),
        Option::None => None,
    };
    Ok(Some(EmbeddedPdf { filename, bytes }))
}

/// Searches the document for the first `EmbeddedDocumentBinaryObject` element
/// declared `application/pdf` and decodes its base64 payload.
///
/// Fails with a `Parse` error exactly when the parser rejects the text as
/// not well-formed XML (up to the machine limit on the node count) and with
/// a `Decode` error when a present, non-empty payload is not canonical
/// base64; an absent or empty payload is `Ok(None)`. The outcome is fixed by
/// the text's own parsed document: a function of the text alone.
pub fn extract_embedded_pdf(xml: &str) -> (r: Result<Option<EmbeddedPdf>, InvoiceError>)
    ensures
        r matches Ok(o) ==> exists|doc: XmlDoc|
            doc.wf() && spec_parses_to(xml@, doc) && spec_embedded_result(doc, r),
        r matches Err(e) ==> e is Parse || e is Decode,
        (r matches Err(e) && e is Parse) ==> !spec_parse_ok(xml@) || spec_parse_parents(xml@).len()
            >= 0xFFFF_FFFE,
        !spec_parse_ok(xml@) ==> (r matches Err(e) && e is Parse),
        (spec_parse_ok(xml@) && spec_parse_parents(xml@).len() < 0xFFFF_FFFE) ==> exists|
            doc: XmlDoc,
        | doc.wf() && spec_parses_to(xml@, doc) && spec_embedded_result(doc, r),
{
    let doc = match parse_xml(xml) {
        Result::Ok(d) => d,
        Result::Err(e) => {
            return Err(e);
        },
    };
    let r = extract_embedded_from(&doc);
    proof {
        assert(doc.wf() && spec_parses_to(xml@, doc) && spec_embedded_result(doc, r));
    }
    r
}

} // verus!

//! The flat invoice data model and the tolerant extraction that fills it.
//!
//! Extraction is total over well-formed documents: a missing optional element
//! never fails, it leaves the corresponding field as the empty string.
use vstd::prelude::*;
use crate::errors::InvoiceError;
use crate::parse::parse_xml;
use crate::parse::spec_parse_parents;
use crate::parse::spec_parses_to;
use crate::parse::spec_parse_ok;
use crate::xml::XmlDoc;
use crate::xml::XmlNodeKind;

verus! {

/// One postal address block; fields default to empty, never absent.
#[derive(Debug, Clone)]
pub struct Address {
    pub street: String,
    pub city: String,
    pub postal: String,
}

/// One invoice line; all fields pass the source text through unparsed.
#[derive(Debug, Clone)]
pub struct InvoiceLine {
    pub description: String,
    pub quantity: String,
    pub unit_price: String,
    pub total: String,
}

/// The flat invoice data model; every field defaults to the empty string.
#[derive(Debug, Clone)]
pub struct InvoiceData {
    pub invoice_number: String,
    pub issue_date: String,
    pub due_date: String,
    pub currency: String,
    pub supplier_name: String,
    pub supplier_vat: String,
    pub supplier_address: Address,
    pub customer_name: String,
    pub customer_vat: String,
    pub customer_address: Address,
    pub subtotal: String,
    pub tax_total: String,
    pub total: String,
    pub lines: Vec<InvoiceLine>,
}

/// An optional arena index, at the specification level.
pub open spec fn opt_index(o: Option<usize>) -> Option<int> {
    match o {
        Option::None => None,
        Option::Some(k) => Some(k as int),
    }
}

/// The trimmed text of the first descendant named `name` below `scope`, or
/// empty when the scope or the text is absent.
pub open spec fn spec_field(doc: XmlDoc, scope: Option<int>, name: Seq<char>) -> Seq<char> {
    match scope {
        Option::None => Seq::empty(),
        Option::Some(s) => match doc.spec_find_text(s, name) {
            Option::None => Seq::empty(),
            Option::Some(t) => t,
        },
    }
}

/// A missing scope or a missing element always yields the empty string:
/// extraction never fails, it degrades to empty defaults.
pub proof fn lemma_missing_field_empty(doc: XmlDoc, scope: Option<int>, name: Seq<char>)
    requires
        scope matches Some(s) ==> doc.spec_find_text(s, name) is None,
    ensures
        spec_field(doc, scope, name) == Seq::<char>::empty(),
{
}

/// The party node of a container: the first descendant named `container`
/// below the root element, then the first descendant named `Party` below it.
pub open spec fn spec_party(doc: XmlDoc, root: Option<int>, container: Seq<char>) -> Option<int> {
    match root {
        Option::None => None,
        Option::Some(re) => match doc.spec_find_descendant(re, container) {
            Option::None => None,
            Option::Some(a) => doc.spec_find_descendant(a, "Party"@),
        },
    }
}

/// The scope for the monetary totals: the first descendant named
/// `LegalMonetaryTotal` below the root element.
pub open spec fn spec_totals_scope(doc: XmlDoc, root: Option<int>) -> Option<int> {
    match root {
        Option::None => None,
        Option::Some(re) => doc.spec_find_descendant(re, "LegalMonetaryTotal"@),
    }
}

/// The postal-address scope of a party node.
pub open spec fn spec_address_scope(doc: XmlDoc, party: Option<int>) -> Option<int> {
    match party {
        Option::None => None,
        Option::Some(p) => doc.spec_find_descendant(p, "PostalAddress"@),
    }
}

/// The indices, in document order, of the elements named `InvoiceLine` in
/// `[j, stop)`.
pub open spec fn spec_line_indices(doc: XmlDoc, j: int, stop: int) -> Seq<int>
    decreases stop - j,
{
    if j >= stop {
        Seq::empty()
    } else if doc.spec_is_match(j, "InvoiceLine"@) {
        seq![j] + spec_line_indices(doc, j + 1, stop)
    } else {
        spec_line_indices(doc, j + 1, stop)
    }
}

/// The line indices of the whole document: every descendant of the root
/// element — strictly below it — named `InvoiceLine`, in document order.
pub open spec fn spec_doc_line_indices(doc: XmlDoc) -> Seq<int> {
    match doc.spec_root_element() {
        Option::None => Seq::empty(),
        Option::Some(re) => spec_line_indices(doc, re + 1, doc.nodes@[re].end as int),
    }
}

/// Whether an extracted line carries exactly the fields of the line node `k`.
pub open spec fn spec_line_matches(doc: XmlDoc, k: int, line: InvoiceLine) -> bool {
    &&& line.description@ == spec_field(doc, Some(k), "Description"@)
    &&& line.quantity@ == spec_field(doc, Some(k), "InvoicedQuantity"@)
    &&& line.unit_price@ == spec_field(doc, Some(k), "PriceAmount"@)
    &&& line.total@ == spec_field(doc, Some(k), "LineExtensionAmount"@)
}

/// Whether `d` is exactly what extraction yields from `doc`.
pub open spec fn spec_data_matches(doc: XmlDoc, d: InvoiceData) -> bool {
    let root = doc.spec_root_element();
    let supplier = spec_party(doc, root, "AccountingSupplierParty"@);
    let customer = spec_party(doc, root, "AccountingCustomerParty"@);
    let totals = spec_totals_scope(doc, root);
    let lines = spec_doc_line_indices(doc);
    &&& d.invoice_number@ == spec_field(doc, root, "ID"@)
    &&& d.issue_date@ == spec_field(doc, root, "IssueDate"@)
    &&& d.due_date@ == spec_field(doc, root, "DueDate"@)
    &&& d.currency@ == spec_field(doc, root, "DocumentCurrencyCode"@)
    &&& d.supplier_name@ == spec_field(doc, supplier, "Name"@)
    &&& d.supplier_vat@ == spec_field(doc, supplier, "CompanyID"@)
    &&& spec_address_matches(doc, supplier, d.supplier_address)
    &&& d.customer_name@ == spec_field(doc, customer, "Name"@)
    &&& d.customer_vat@ == spec_field(doc, customer, "CompanyID"@)
    &&& spec_address_matches(doc, customer, d.customer_address)
    &&& d.subtotal@ == spec_field(doc, totals, "TaxExclusiveAmount"@)
    &&& d.tax_total@ == spec_field(doc, root, "TaxAmount"@)
    &&& d.total@ == spec_field(doc, totals, "TaxInclusiveAmount"@)
    &&& d.lines@.len() == lines.len()
    &&& forall|t: int| 0 <= t < lines.len() ==> spec_line_matches(doc, lines[t], #[trigger] d.lines@[t])
}

/// Whether an address block carries exactly the address fields under `party`.
pub open spec fn spec_address_matches(doc: XmlDoc, party: Option<int>, a: Address) -> bool {
    let scope = spec_address_scope(doc, party);
    &&& a.street@ == spec_field(doc, scope, "StreetName"@)
    &&& a.city@ == spec_field(doc, scope, "CityName"@)
    &&& a.postal@ == spec_field(doc, scope, "PostalZone"@)
}

/// Reads one field: the trimmed text of the first descendant named `name`
/// below `scope`, or the empty string when scope or text is absent.
fn field_or_empty(doc: &XmlDoc, scope: Option<usize>, name: &str) -> (r: String)
    requires
        doc.wf(),
        scope matches Some(s) ==> s < doc.nodes@.len(),
    ensures
        r@ == spec_field(*doc, opt_index(scope), name@),
{
    match scope {
        Option::None => String::new(),
        Option::Some(s) => match doc.find_text(s, name) {
            Option::None => String::new(),
            Option::Some(t) => t,
        },
    }
}

/// Finds the party node of a container below the root element.
fn party_node(doc: &XmlDoc, root: Option<usize>, container: &str) -> (r: Option<usize>)
    requires
        doc.wf(),
        root matches Some(re) ==> re < doc.nodes@.len(),
    ensures
        opt_index(r) == spec_party(*doc, opt_index(root), container@),
        r matches Some(p) ==> p < doc.nodes@.len(),
{
    match root {
        Option::None => None,
        Option::Some(re) => match doc.find_descendant(re, container) {
            Option::None => None,
            Option::Some(a) => {
                proof {
                    assert(doc.nodes@[re as int].end <= doc.nodes@.len());
                }
                doc.find_descendant(a, "Party")
            },
        },
    }
}

/// Parses the shared address block: an absent party node or an absent
/// `PostalAddress` below it yields an all-empty address, never a failure.
pub fn parse_address(doc: &XmlDoc, party: Option<usize>) -> (r: Address)
    requires
        doc.wf(),
        party matches Some(p) ==> p < doc.nodes@.len(),
    ensures
        spec_address_matches(*doc, opt_index(party), r),
        party is None ==> r.street@ == Seq::<char>::empty() && r.city@ == Seq::<char>::empty()
            && r.postal@ == Seq::<char>::empty(),
        (party matches Some(p) && doc.spec_find_descendant(p as int, "PostalAddress"@) is None)
            ==> r.street@ == Seq::<char>::empty() && r.city@ == Seq::<char>::empty() && r.postal@
            == Seq::<char>::empty(),
{
    let scope: Option<usize> = match party {
        Option::None => None,
        Option::Some(p) => {
            proof {
                assert(doc.nodes@[p as int].end <= doc.nodes@.len());
            }
            doc.find_descendant(p, "PostalAddress")
        },
    };
    Address {
        street: field_or_empty(doc, scope, "StreetName"),
        city: field_or_empty(doc, scope, "CityName"),
        postal: field_or_empty(doc, scope, "PostalZone"),
    }
}

/// Appending one index step to a line-index range: the indices of `[a, j+1)`
/// are those of `[a, j)`, extended by `j` when `j` is a line element.
proof fn lemma_line_indices_snoc(doc: XmlDoc, a: int, j: int)
    requires
        a <= j,
    ensures
        spec_line_indices(doc, a, j + 1) == spec_line_indices(doc, a, j) + (
        if doc.spec_is_match(j, "InvoiceLine"@) {
            seq![j]
        } else {
            Seq::<int>::empty()
        }),
    decreases j - a,
{
    if a == j {
        assert(spec_line_indices(doc, a, j) =~= Seq::<int>::empty());
        assert(spec_line_indices(doc, j + 1, j + 1) =~= Seq::<int>::empty());
        if doc.spec_is_match(j, "InvoiceLine"@) {
            assert(spec_line_indices(doc, a, j + 1) =~= seq![j]);
        } else {
            assert(spec_line_indices(doc, a, j + 1) =~= Seq::<int>::empty());
        }
    } else {
        lemma_line_indices_snoc(doc, a + 1, j);
        if doc.spec_is_match(a, "InvoiceLine"@) {
            assert(spec_line_indices(doc, a, j + 1) =~= seq![a] + spec_line_indices(
                doc,
                a + 1,
                j + 1,
            ));
            assert(spec_line_indices(doc, a, j + 1) =~= spec_line_indices(doc, a, j) + (
            if doc.spec_is_match(j, "InvoiceLine"@) {
                seq![j]
            } else {
                Seq::<int>::empty()
            }));
        }
    }
}

/// Every collected line index lies in the searched range.
proof fn lemma_line_indices_in_range(doc: XmlDoc, a: int, stop: int, t: int)
    requires
        0 <= t < spec_line_indices(doc, a, stop).len(),
    ensures
        a <= spec_line_indices(doc, a, stop)[t] < stop,
    decreases stop - a,
{
    if a < stop {
        if doc.spec_is_match(a, "InvoiceLine"@) {
            if t > 0 {
                lemma_line_indices_in_range(doc, a + 1, stop, t - 1);
            }
        } else {
            lemma_line_indices_in_range(doc, a + 1, stop, t);
        }
    }
}

/// Collects every line item below the root element, in document order.
fn collect_lines(doc: &XmlDoc, root: Option<usize>) -> (r: Vec<InvoiceLine>)
    requires
        doc.wf(),
        opt_index(root) == doc.spec_root_element(),
        root matches Some(re) ==> re < doc.nodes@.len(),
    ensures
        r@.len() == spec_doc_line_indices(*doc).len(),
        forall|t: int|
            0 <= t < r@.len() ==> spec_line_matches(
                *doc,
                spec_doc_line_indices(*doc)[t],
                #[trigger] r@[t],
            ),
{
    let mut lines: Vec<InvoiceLine> = Vec::new();
    let re = match root {
        Option::None => {
            return lines;
        },
        Option::Some(re) => re,
    };
    let stop = doc.nodes[re].end;
    proof {
        assert(re < doc.nodes@[re as int].end <= doc.nodes@.len());
    }
    let mut j = re + 1;
    while j < stop
        invariant
            doc.wf(),
            re + 1 <= j <= stop,
            re < doc.nodes@.len(),
            stop == doc.nodes@[re as int].end,
            stop <= doc.nodes@.len(),
            lines@.len() == spec_line_indices(*doc, re as int + 1, j as int).len(),
            forall|t: int|
                0 <= t < lines@.len() ==> spec_line_matches(
                    *doc,
                    spec_line_indices(*doc, re as int + 1, j as int)[t],
                    #[trigger] lines@[t],
                ),
        decreases stop - j,
    {
        let node = &doc.nodes[j];
        let ghost prev = spec_line_indices(*doc, re as int + 1, j as int);
        if matches!(node.kind, XmlNodeKind::Element) && crate::xml::string_eq_str(
            &node.name,
            "InvoiceLine",
        ) {
            let line = InvoiceLine {
                description: field_or_empty(doc, Some(j), "Description"),
                quantity: field_or_empty(doc, Some(j), "InvoicedQuantity"),
                unit_price: field_or_empty(doc, Some(j), "PriceAmount"),
                total: field_or_empty(doc, Some(j), "LineExtensionAmount"),
            };
            lines.push(line);
        }
        proof {
            lemma_line_indices_snoc(*doc, re as int + 1, j as int);
            let cur = spec_line_indices(*doc, re as int + 1, j as int + 1);
            if doc.spec_is_match(j as int, "InvoiceLine"@) {
                assert(cur =~= prev.push(j as int));
            } else {
                assert(cur =~= prev);
            }
            assert forall|t: int| 0 <= t < lines@.len() implies spec_line_matches(
                *doc,
                cur[t],
                #[trigger] lines@[t],
            ) by {
                if t < prev.len() {
                    assert(cur[t] == prev[t]);
                }
            }
        }
        j = j + 1;
    }
    lines
}

/// Maps one XML document to one invoice data value. Total: never fails, a
/// missing optional element leaves its field empty.
pub fn extract_invoice_data(doc: &XmlDoc) -> (r: InvoiceData)
    requires
        doc.wf(),
    ensures
        spec_data_matches(*doc, r),
{
    let root = doc.root_element();
    let supplier = party_node(doc, root, "AccountingSupplierParty");
    let customer = party_node(doc, root, "AccountingCustomerParty");
    let totals = match root {
        Option::None => None,
        Option::Some(re) => {
            proof {
                assert(doc.nodes@[re as int].end <= doc.nodes@.len());
            }
            doc.find_descendant(re, "LegalMonetaryTotal")
        },
    };
    InvoiceData {
        invoice_number: field_or_empty(doc, root, "ID"),
        issue_date: field_or_empty(doc, root, "IssueDate"),
        due_date: field_or_empty(doc, root, "DueDate"),
        currency: field_or_empty(doc, root, "DocumentCurrencyCode"),
        supplier_name: field_or_empty(doc, supplier, "Name"),
        supplier_vat: field_or_empty(doc, supplier, "CompanyID"),
        supplier_address: parse_address(doc, supplier),
        customer_name: field_or_empty(doc, customer, "Name"),
        customer_vat: field_or_empty(doc, customer, "CompanyID"),
        customer_address: parse_address(doc, customer),
        subtotal: field_or_empty(doc, totals, "TaxExclusiveAmount"),
        tax_total: field_or_empty(doc, root, "TaxAmount"),
        total: field_or_empty(doc, totals, "TaxInclusiveAmount"),
        lines: collect_lines(doc, root),
    }
}

/// Parses UBL invoice text and extracts its flat data model.
///
/// Fails exactly when the parser rejects the text as not well-formed XML
/// (up to the machine limit on the node count). On success the data is the
/// extraction of the text's own parsed document: a function of the text
/// alone.
pub fn parse_ubl_invoice(xml: &str) -> (r: Result<InvoiceData, InvoiceError>)
    ensures
        r matches Ok(d) ==> exists|doc: XmlDoc|
            doc.wf() && spec_parses_to(xml@, doc) && spec_data_matches(doc, d),
        r matches Err(e) ==> e is Parse,
        r is Ok ==> spec_parse_ok(xml@),
        !spec_parse_ok(xml@) ==> r is Err,
        (spec_parse_ok(xml@) && spec_parse_parents(xml@).len() < 0xFFFF_FFFE) ==> r is Ok,
{
    let doc = match parse_xml(xml) {
        Result::Ok(d) => d,
        Result::Err(e) => {
            return Err(e);
        },
    };
    let data = extract_invoice_data(&doc);
    proof {
        assert(doc.wf() && spec_parses_to(xml@, doc) && spec_data_matches(doc, data));
    }
    Ok(data)
}

} // verus!



use ruble::embedded::extract_embedded_pdf;
use ruble::errors::InvoiceError;
use ruble::invoice::parse_ubl_invoice;

const SAMPLE_XML: &str = r#"
<Invoice xmlns="urn:oasis:names:specification:ubl:schema:xsd:Invoice-2"
 xmlns:cac="urn:oasis:names:specification:ubl:schema:xsd:CommonAggregateComponents-2"
 xmlns:cbc="urn:oasis:names:specification:ubl:schema:xsd:CommonBasicComponents-2">
  <cbc:ID>INV-1</cbc:ID>
  <cbc:IssueDate>2024-01-01</cbc:IssueDate>
  <cbc:DocumentCurrencyCode>EUR</cbc:DocumentCurrencyCode>
  <cac:AccountingSupplierParty>
    <cac:Party>
      <cbc:Name>Supplier Inc</cbc:Name>
      <cac:PartyTaxScheme>
        <cbc:CompanyID>VAT123</cbc:CompanyID>
      </cac:PartyTaxScheme>
      <cac:PostalAddress>
        <cbc:StreetName>Main</cbc:StreetName>
        <cbc:CityName>Paris</cbc:CityName>
        <cbc:PostalZone>75001</cbc:PostalZone>
      </cac:PostalAddress>
    </cac:Party>
  </cac:AccountingSupplierParty>
  <cac:AccountingCustomerParty>
    <cac:Party>
      <cbc:Name>Customer LLC</cbc:Name>
      <cac:PartyTaxScheme>
        <cbc:CompanyID>VAT999</cbc:CompanyID>
      </cac:PartyTaxScheme>
      <cac:PostalAddress>
        <cbc:StreetName>Rue 1</cbc:StreetName>
        <cbc:CityName>Lyon</cbc:CityName>
        <cbc:PostalZone>69000</cbc:PostalZone>
      </cac:PostalAddress>
    </cac:Party>
  </cac:AccountingCustomerParty>
  <cac:LegalMonetaryTotal>
    <cbc:TaxExclusiveAmount>10.00</cbc:TaxExclusiveAmount>
    <cbc:TaxInclusiveAmount>12.00</cbc:TaxInclusiveAmount>
  </cac:LegalMonetaryTotal>
  <cac:TaxTotal>
    <cbc:TaxAmount>2.00</cbc:TaxAmount>
  </cac:TaxTotal>
  <cac:InvoiceLine>
    <cbc:InvoicedQuantity>1</cbc:InvoicedQuantity>
    <cbc:LineExtensionAmount>10.00</cbc:LineExtensionAmount>
    <cac:Item>
      <cbc:Description>Widget</cbc:Description>
    </cac:Item>
    <cac:Price>
      <cbc:PriceAmount>10.00</cbc:PriceAmount>
    </cac:Price>
  </cac:InvoiceLine>
  <cac:AdditionalDocumentReference>
    <cac:Attachment>
      <cbc:EmbeddedDocumentBinaryObject mimeCode="application/pdf" filename="orig.pdf">aGVsbG8=</cbc:EmbeddedDocumentBinaryObject>
    </cac:Attachment>
  </cac:AdditionalDocumentReference>
</Invoice>
"#;

#[test]
fn parses_invoice_fields() {
    let data = parse_ubl_invoice(SAMPLE_XML).expect("parse invoice");
    assert_eq!(data.invoice_number, "INV-1");
    assert_eq!(data.issue_date, "2024-01-01");
    assert_eq!(data.currency, "EUR");
    assert_eq!(data.supplier_name, "Supplier Inc");
    assert_eq!(data.customer_name, "Customer LLC");
    assert_eq!(data.lines.len(), 1);
    assert_eq!(data.lines[0].description, "Widget");
}

#[test]
fn extracts_embedded_pdf() {
    let embedded = extract_embedded_pdf(SAMPLE_XML)
        .expect("extract embedded")
        .expect("embedded pdf present");
    assert_eq!(embedded.filename.as_deref(), Some("orig.pdf"));
    assert_eq!(embedded.bytes, b"hello");
}

#[test]
fn reference_sample_all_fields() {
    let data = parse_ubl_invoice(SAMPLE_XML).expect("parse invoice");
    assert_eq!(data.supplier_vat, "VAT123");
    assert_eq!(data.customer_vat, "VAT999");
    assert_eq!(data.supplier_address.street, "Main");
    assert_eq!(data.supplier_address.city, "Paris");
    assert_eq!(data.supplier_address.postal, "75001");
    assert_eq!(data.customer_address.street, "Rue 1");
    assert_eq!(data.customer_address.city, "Lyon");
    assert_eq!(data.customer_address.postal, "69000");
    assert_eq!(data.subtotal, "10.00");
    assert_eq!(data.tax_total, "2.00");
    assert_eq!(data.total, "12.00");
    assert_eq!(data.due_date, "");
    assert_eq!(data.lines[0].quantity, "1");
    assert_eq!(data.lines[0].unit_price, "10.00");
    assert_eq!(data.lines[0].total, "10.00");
}

#[test]
fn extraction_is_total_on_minimal_document() {
    let data = parse_ubl_invoice("<Invoice/>").expect("parse minimal invoice");
    assert_eq!(data.invoice_number, "");
    assert_eq!(data.issue_date, "");
    assert_eq!(data.due_date, "");
    assert_eq!(data.currency, "");
    assert_eq!(data.supplier_name, "");
    assert_eq!(data.supplier_vat, "");
    assert_eq!(data.supplier_address.street, "");
    assert_eq!(data.supplier_address.city, "");
    assert_eq!(data.supplier_address.postal, "");
    assert_eq!(data.customer_name, "");
    assert_eq!(data.customer_vat, "");
    assert_eq!(data.subtotal, "");
    assert_eq!(data.tax_total, "");
    assert_eq!(data.total, "");
    assert_eq!(data.lines.len(), 0);
}

#[test]
fn malformed_xml_is_a_parse_error() {
    let err = parse_ubl_invoice("<Invoice><unclosed></Invoice>").unwrap_err();
    assert!(matches!(err, InvoiceError::Parse(_)));
}

#[test]
fn address_empty_when_party_absent() {
    let xml = "<Invoice><ID>X</ID></Invoice>";
    let data = parse_ubl_invoice(xml).expect("parse");
    assert_eq!(data.supplier_address.street, "");
    assert_eq!(data.supplier_address.city, "");
    assert_eq!(data.supplier_address.postal, "");
}

#[test]
fn address_empty_when_postal_address_absent() {
    let xml = "<Invoice><AccountingSupplierParty><Party><Name>S</Name></Party>\
               </AccountingSupplierParty></Invoice>";
    let data = parse_ubl_invoice(xml).expect("parse");
    assert_eq!(data.supplier_name, "S");
    assert_eq!(data.supplier_address.street, "");
    assert_eq!(data.supplier_address.city, "");
    assert_eq!(data.supplier_address.postal, "");
}

#[test]
fn field_text_is_trimmed() {
    let xml = "<Invoice><ID>  INV-9\n </ID></Invoice>";
    let data = parse_ubl_invoice(xml).expect("parse");
    assert_eq!(data.invoice_number, "INV-9");
    // non-ASCII whitespace trims too, as str::trim trims it
    let xml2 = "<Invoice><ID>\u{00A0}INV-9\u{2003}</ID></Invoice>";
    let data2 = parse_ubl_invoice(xml2).expect("parse");
    assert_eq!(data2.invoice_number, "INV-9");
}

#[test]
fn tax_amount_is_found_document_wide_first_match() {
    let xml = "<Invoice>\
               <Other><TaxAmount>7.77</TaxAmount></Other>\
               <TaxTotal><TaxAmount>2.00</TaxAmount></TaxTotal>\
               </Invoice>";
    let data = parse_ubl_invoice(xml).expect("parse");
    assert_eq!(data.tax_total, "7.77");
}

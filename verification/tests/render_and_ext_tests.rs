use ruble::ext::matches_extension;
use ruble::ext::parse_extensions;
use ruble::invoice::parse_ubl_invoice;
use ruble::invoice::Address;
use ruble::invoice::InvoiceData;
use ruble::invoice::InvoiceLine;
use ruble::render::render_invoice;
use ruble::render::DrawOp;
use ruble::render::PenColor;

fn sample_data() -> InvoiceData {
    InvoiceData {
        invoice_number: "INV-1".to_string(),
        issue_date: "2024-01-01".to_string(),
        due_date: "2024-02-01".to_string(),
        currency: "EUR".to_string(),
        supplier_name: "Supplier Inc".to_string(),
        supplier_vat: "VAT123".to_string(),
        supplier_address: Address {
            street: "Main".to_string(),
            city: "Paris".to_string(),
            postal: "75001".to_string(),
        },
        customer_name: "Customer LLC".to_string(),
        customer_vat: "VAT999".to_string(),
        customer_address: Address {
            street: "Rue 1".to_string(),
            city: "Lyon".to_string(),
            postal: "69000".to_string(),
        },
        subtotal: "10.00".to_string(),
        tax_total: "2.00".to_string(),
        total: "12.00".to_string(),
        lines: vec![InvoiceLine {
            description: "Widget".to_string(),
            quantity: "1".to_string(),
            unit_price: "10.00".to_string(),
            total: "10.00".to_string(),
        }],
    }
}

#[test]
fn render_is_deterministic() {
    let data = sample_data();
    let ops1 = render_invoice(&data);
    let ops2 = render_invoice(&data);
    assert_eq!(ops1, ops2);
}

#[test]
fn render_title_and_totals() {
    let data = sample_data();
    let ops = render_invoice(&data);
    match &ops[0] {
        DrawOp::Text { x, y, size, bold, color, content } => {
            assert_eq!((*x, *y, *size, *bold), (180, 2840, 220, true));
            assert_eq!(*color, PenColor::Accent);
            assert_eq!(content, "INVOICE");
        },
        other => panic!("first operation is not the title: {:?}", other),
    }
    let texts: Vec<&DrawOp> = ops
        .iter()
        .filter(|op| matches!(op, DrawOp::Text { .. }))
        .collect();
    match texts[texts.len() - 1] {
        DrawOp::Text { size, bold, content, .. } => {
            assert_eq!(content, "Total: EUR 12.00");
            assert_eq!((*size, *bold), (120, true));
        },
        _ => unreachable!(),
    }
    match texts[texts.len() - 2] {
        DrawOp::Text { content, .. } => assert_eq!(content, "VAT: EUR 2.00"),
        _ => unreachable!(),
    }
    match texts[texts.len() - 3] {
        DrawOp::Text { content, .. } => assert_eq!(content, "Subtotal: EUR 10.00"),
        _ => unreachable!(),
    }
}

#[test]
fn render_emits_four_dividers_and_line_rows() {
    let data = sample_data();
    let ops = render_invoice(&data);
    let rules = ops
        .iter()
        .filter(|op| matches!(op, DrawOp::Rule { .. }))
        .count();
    assert_eq!(rules, 4);
    let line_row: Vec<String> = ops
        .iter()
        .filter_map(|op| match op {
            DrawOp::Text { y, content, .. } if *y == 1850 => Some(content.clone()),
            _ => None,
        })
        .collect();
    assert_eq!(line_row, vec!["Widget", "1", "EUR 10.00", "EUR 10.00"]);
}

#[test]
fn render_suppresses_empty_street_row() {
    let with_streets = sample_data();
    let mut without = sample_data();
    without.supplier_address.street = String::new();
    without.customer_address.street = String::new();
    let ops_with = render_invoice(&with_streets);
    let ops_without = render_invoice(&without);
    assert_eq!(ops_with.len(), ops_without.len() + 2);
    // the city row moves up exactly one row height
    let city_y = |ops: &Vec<DrawOp>| -> i128 {
        ops.iter()
            .find_map(|op| match op {
                DrawOp::Text { y, content, .. } if content.contains("Paris") => Some(*y),
                _ => None,
            })
            .expect("city row present")
    };
    assert_eq!(city_y(&ops_with), 2270);
    assert_eq!(city_y(&ops_without), 2335);
}

#[test]
fn render_city_row_is_city_then_postal() {
    let data = sample_data();
    let ops = render_invoice(&data);
    assert!(ops.iter().any(|op| matches!(
        op,
        DrawOp::Text { content, .. } if content == "Paris 75001"
    )));
    assert!(ops.iter().any(|op| matches!(
        op,
        DrawOp::Text { content, .. } if content == "Lyon 69000"
    )));
}

#[test]
fn render_suppresses_empty_name_row() {
    let with_names = sample_data();
    let mut without = sample_data();
    without.supplier_name = String::new();
    without.customer_name = String::new();
    let ops_with = render_invoice(&with_names);
    let ops_without = render_invoice(&without);
    assert_eq!(ops_with.len(), ops_without.len() + 2);
    // the street row moves up exactly one row height
    let street_y = |ops: &Vec<DrawOp>| -> i128 {
        ops.iter()
            .find_map(|op| match op {
                DrawOp::Text { y, content, .. } if content == "Main" => Some(*y),
                _ => None,
            })
            .expect("street row present")
    };
    assert_eq!(street_y(&ops_with), 2335);
    assert_eq!(street_y(&ops_without), 2400);
}

#[test]
fn render_skips_due_date_row_without_moving_cursor() {
    let with_due = sample_data();
    let mut without = sample_data();
    without.due_date = String::new();
    let ops_with = render_invoice(&with_due);
    let ops_without = render_invoice(&without);
    assert_eq!(ops_with.len(), ops_without.len() + 1);
    let supplier_y = |ops: &Vec<DrawOp>| -> i128 {
        ops.iter()
            .find_map(|op| match op {
                DrawOp::Text { y, content, .. } if content == "Supplier" => Some(*y),
                _ => None,
            })
            .expect("supplier header present")
    };
    assert_eq!(supplier_y(&ops_with), supplier_y(&ops_without));
}

#[test]
fn render_from_parsed_reference_sample() {
    let xml = "<Invoice><ID>INV-1</ID><DocumentCurrencyCode>EUR</DocumentCurrencyCode>\
               <TaxTotal><TaxAmount>2.00</TaxAmount></TaxTotal></Invoice>";
    let data = parse_ubl_invoice(xml).expect("parse");
    let ops = render_invoice(&data);
    assert!(ops.iter().any(|op| matches!(
        op,
        DrawOp::Text { content, .. } if content == "Invoice Number: INV-1"
    )));
    assert!(ops.iter().any(|op| matches!(
        op,
        DrawOp::Text { content, .. } if content == "VAT: EUR 2.00"
    )));
}

#[test]
fn parse_extensions_cleans_entries() {
    let exts = parse_extensions("xml,ubl");
    assert_eq!(exts, vec!["xml".to_string(), "ubl".to_string()]);
    let exts2 = parse_extensions(" .XML ,, ubl , ");
    assert_eq!(exts2, vec!["xml".to_string(), "ubl".to_string()]);
    assert_eq!(parse_extensions(""), Vec::<String>::new());
    assert_eq!(parse_extensions("...xml"), vec!["xml".to_string()]);
    // equal entries collapse to their first occurrence
    assert_eq!(
        parse_extensions("xml,XML,ubl,xml"),
        vec!["xml".to_string(), "ubl".to_string()]
    );
}

#[test]
fn matches_extension_cases() {
    let exts = parse_extensions("xml,ubl");
    assert!(matches_extension("dir/invoice.XML", &exts));
    assert!(matches_extension("invoice.ubl", &exts));
    assert!(!matches_extension("dir/invoice.txt", &exts));
    assert!(!matches_extension("noextension", &exts));
    assert!(!matches_extension(".xml", &exts));
    assert!(!matches_extension("dir.xml/noextension", &exts));
    assert!(matches_extension("archive.tar.xml", &exts));
    // trailing slashes are ignored, as std's path handling ignores them
    assert!(matches_extension("dir/invoice.xml/", &exts));
    assert!(!matches_extension("dir/", &exts));
}

//! The deterministic, single-pass layout renderer.
//!
//! One fixed portrait page (210 by 297 length units); coordinates, font
//! sizes and rule thicknesses are kept in tenths of a unit so the layout is
//! exact integer arithmetic. The renderer emits an ordered sequence of draw
//! operations; each operation carries its own pen style (a snapshot model of
//! the pen state), so no operation can inherit an unintended style from an
//! earlier one. Rows of the party block are emitted only when at least one
//! side is non-empty: a skipped row consumes no vertical space.
use vstd::prelude::*;
use crate::invoice::InvoiceData;
use crate::invoice::InvoiceLine;

verus! {

/// The pen colors the layout uses; the document writer maps them to RGB.
#[derive(Debug, Clone, Copy, PartialEq, Eq, Structural)]
pub enum PenColor {
    /// The default fill and outline color.
    Black,
    /// The dark blue of the title block.
    Accent,
    /// The muted gray of the items header row.
    GrayMuted,
    /// The light gray of divider rules.
    GrayLight,
}

/// One positioned draw operation, in tenths of a length unit.
#[derive(Debug, Clone, PartialEq)]
pub enum DrawOp {
    /// Positioned text: position, font size in tenths of a point, weight,
    /// fill color and content.
    Text { x: u32, y: i128, size: u32, bold: bool, color: PenColor, content: String },
    /// A horizontal rule from `x1` to `x2` with an outline thickness and
    /// color.
    Rule { x1: u32, x2: u32, y: i128, thickness: u32, color: PenColor },
}

/// The specification-level value of a draw operation.
pub enum DrawOpV {
    Text { x: int, y: int, size: int, bold: bool, color: PenColor, content: Seq<char> },
    Rule { x1: int, x2: int, y: int, thickness: int, color: PenColor },
}

/// The specification-level value of one operation.
pub open spec fn op_view(op: DrawOp) -> DrawOpV {
    match op {
        DrawOp::Text { x, y, size, bold, color, content } => DrawOpV::Text {
            x: x as int,
            y: y as int,
            size: size as int,
            bold,
            color,
            content: content@,
        },
        DrawOp::Rule { x1, x2, y, thickness, color } => DrawOpV::Rule {
            x1: x1 as int,
            x2: x2 as int,
            y: y as int,
            thickness: thickness as int,
            color,
        },
    }
}

/// The specification-level value of an operation sequence.
pub open spec fn ops_view(s: Seq<DrawOp>) -> Seq<DrawOpV> {
    s.map_values(|op: DrawOp| op_view(op))
}

/// Appending an operation appends its value.
pub broadcast proof fn lemma_ops_view_push(s: Seq<DrawOp>, op: DrawOp)
    ensures
        #[trigger] ops_view(s.push(op)) == ops_view(s).push(op_view(op)),
{
    assert(ops_view(s.push(op)) =~= ops_view(s).push(op_view(op)));
}

/// A text operation, briefly.
pub open spec fn t_op(x: int, y: int, size: int, bold: bool, color: PenColor, content: Seq<char>) -> DrawOpV {
    DrawOpV::Text { x, y, size, bold, color, content }
}

/// A divider rule: thin, light gray, full content width.
pub open spec fn rule_op(y: int) -> DrawOpV {
    DrawOpV::Rule { x1: 180, x2: 1920, y, thickness: 3, color: PenColor::GrayLight }
}

/// Whether the name row of the party block is emitted.
pub open spec fn name_row(d: InvoiceData) -> bool {
    d.supplier_name@.len() > 0 || d.customer_name@.len() > 0
}

/// Whether the street row of the party block is emitted.
pub open spec fn street_row(d: InvoiceData) -> bool {
    d.supplier_address.street@.len() > 0 || d.customer_address.street@.len() > 0
}

/// Whether the city and postal-code row of the party block is emitted.
pub open spec fn city_row(d: InvoiceData) -> bool {
    d.supplier_address.city@.len() > 0 || d.supplier_address.postal@.len() > 0
        || d.customer_address.city@.len() > 0 || d.customer_address.postal@.len() > 0
}

/// Whether the VAT row of the party block is emitted.
pub open spec fn vat_row(d: InvoiceData) -> bool {
    d.supplier_vat@.len() > 0 || d.customer_vat@.len() > 0
}

/// The cursor height of the street row.
pub open spec fn street_y(d: InvoiceData) -> int {
    2400 - if name_row(d) { 65int } else { 0int }
}

/// The cursor height of the city row.
pub open spec fn city_y(d: InvoiceData) -> int {
    street_y(d) - if street_row(d) { 65int } else { 0int }
}

/// The cursor height of the VAT row.
pub open spec fn vat_y(d: InvoiceData) -> int {
    city_y(d) - if city_row(d) { 65int } else { 0int }
}

/// The cursor height after the party block's conditional rows.
pub open spec fn after_party_y(d: InvoiceData) -> int {
    vat_y(d) - if vat_row(d) { 65int } else { 0int }
}

/// The height of the second divider rule.
pub open spec fn div2_y(d: InvoiceData) -> int {
    after_party_y(d) - 60
}

/// The height of the items title.
pub open spec fn items_title_y(d: InvoiceData) -> int {
    div2_y(d) - 70
}

/// The height of the items header row.
pub open spec fn cols_y(d: InvoiceData) -> int {
    items_title_y(d) - 60
}

/// The height of the third divider rule.
pub open spec fn div3_y(d: InvoiceData) -> int {
    cols_y(d) - 40
}

/// The height of the first item row.
pub open spec fn items_y(d: InvoiceData) -> int {
    div3_y(d) - 60
}

/// The height of the final divider rule, below the last item row.
pub open spec fn div4_y(d: InvoiceData) -> int {
    items_y(d) - 65 * d.lines@.len() - 40
}

/// The operations of one item row at height `y`: description, quantity, and
/// unit price and line total each prefixed by the currency code.
pub open spec fn spec_line_ops(cur: Seq<char>, line: InvoiceLine, y: int) -> Seq<DrawOpV> {
    seq![
        t_op(180, y, 90, false, PenColor::Black, line.description@),
        t_op(1220, y, 90, false, PenColor::Black, line.quantity@),
        t_op(1450, y, 90, false, PenColor::Black, cur + " "@ + line.unit_price@),
        t_op(1720, y, 90, false, PenColor::Black, cur + " "@ + line.total@),
    ]
}

/// The operations of all item rows from height `y` downwards, one row per
/// line in stored order.
pub open spec fn spec_items_ops(cur: Seq<char>, lines: Seq<InvoiceLine>, y: int) -> Seq<DrawOpV>
    decreases lines.len(),
{
    if lines.len() == 0 {
        Seq::empty()
    } else {
        spec_line_ops(cur, lines[0], y) + spec_items_ops(cur, lines.drop_first(), y - 65)
    }
}

/// The title and invoice-details block, the first divider, and the party
/// headers.
pub open spec fn spec_head_ops(d: InvoiceData) -> Seq<DrawOpV> {
    seq![
        t_op(180, 2840, 220, true, PenColor::Accent, "INVOICE"@),
        t_op(180, 2740, 100, true, PenColor::Black, "Invoice details"@),
        t_op(180, 2680, 100, false, PenColor::Black, "Invoice Number: "@ + d.invoice_number@),
        t_op(1100, 2680, 100, false, PenColor::Black, "Issue Date: "@ + d.issue_date@),
    ] + (if d.due_date@.len() > 0 {
        seq![t_op(1100, 2615, 100, false, PenColor::Black, "Due Date: "@ + d.due_date@)]
    } else {
        Seq::empty()
    }) + seq![
        rule_op(2535),
        t_op(180, 2465, 110, true, PenColor::Black, "Supplier"@),
        t_op(1100, 2465, 110, true, PenColor::Black, "Customer"@),
    ]
}

/// The paired rows of the party block: name, street, city and postal code
/// (space-separated), VAT id. A row both of whose sides are empty is omitted
/// and consumes no vertical space.
pub open spec fn spec_party_rows_ops(d: InvoiceData) -> Seq<DrawOpV> {
    (if name_row(d) {
        seq![
            t_op(180, 2400, 100, false, PenColor::Black, d.supplier_name@),
            t_op(1100, 2400, 100, false, PenColor::Black, d.customer_name@),
        ]
    } else {
        Seq::empty()
    }) + (if street_row(d) {
        seq![
            t_op(180, street_y(d), 95, false, PenColor::Black, d.supplier_address.street@),
            t_op(1100, street_y(d), 95, false, PenColor::Black, d.customer_address.street@),
        ]
    } else {
        Seq::empty()
    }) + (if city_row(d) {
        seq![
            t_op(
                180,
                city_y(d),
                95,
                false,
                PenColor::Black,
                d.supplier_address.city@ + " "@ + d.supplier_address.postal@,
            ),
            t_op(
                1100,
                city_y(d),
                95,
                false,
                PenColor::Black,
                d.customer_address.city@ + " "@ + d.customer_address.postal@,
            ),
        ]
    } else {
        Seq::empty()
    }) + (if vat_row(d) {
        seq![
            t_op(180, vat_y(d), 95, false, PenColor::Black, "VAT: "@ + d.supplier_vat@),
            t_op(1100, vat_y(d), 95, false, PenColor::Black, "VAT: "@ + d.customer_vat@),
        ]
    } else {
        Seq::empty()
    })
}

/// The second divider, items title, items header row and third divider.
pub open spec fn spec_items_head_ops(d: InvoiceData) -> Seq<DrawOpV> {
    seq![
        rule_op(div2_y(d)),
        t_op(180, items_title_y(d), 110, true, PenColor::Black, "Items"@),
        t_op(180, cols_y(d), 95, true, PenColor::GrayMuted, "Description"@),
        t_op(1220, cols_y(d), 95, true, PenColor::GrayMuted, "Qty"@),
        t_op(1450, cols_y(d), 95, true, PenColor::GrayMuted, "Unit"@),
        t_op(1720, cols_y(d), 95, true, PenColor::GrayMuted, "Total"@),
        rule_op(div3_y(d)),
    ]
}

/// The final divider and the totals block right of center.
pub open spec fn spec_totals_ops(d: InvoiceData) -> Seq<DrawOpV> {
    seq![
        rule_op(div4_y(d)),
        t_op(
            1300,
            div4_y(d) - 70,
            100,
            false,
            PenColor::Black,
            "Subtotal: "@ + d.currency@ + " "@ + d.subtotal@,
        ),
        t_op(
            1300,
            div4_y(d) - 135,
            100,
            false,
            PenColor::Black,
            "VAT: "@ + d.currency@ + " "@ + d.tax_total@,
        ),
        t_op(
            1300,
            div4_y(d) - 200,
            120,
            true,
            PenColor::Black,
            "Total: "@ + d.currency@ + " "@ + d.total@,
        ),
    ]
}

/// The whole fixed layout: every draw operation of one page, in emission
/// order, as a function of the invoice data alone.
pub open spec fn spec_render(d: InvoiceData) -> Seq<DrawOpV> {
    spec_head_ops(d) + spec_party_rows_ops(d) + spec_items_head_ops(d) + spec_items_ops(
        d.currency@,
        d.lines@,
        items_y(d),
    ) + spec_totals_ops(d)
}

/// Two renders of the same data yield the same operations: the layout is a
/// function of the invoice data alone.
pub proof fn lemma_render_deterministic(d: InvoiceData, ops1: Seq<DrawOpV>, ops2: Seq<DrawOpV>)
    requires
        ops1 == spec_render(d),
        ops2 == spec_render(d),
    ensures
        ops1 == ops2,
{
}

/// Each item row holds four operations.
proof fn lemma_items_ops_len(cur: Seq<char>, lines: Seq<InvoiceLine>, y: int)
    ensures
        spec_items_ops(cur, lines, y).len() == 4 * lines.len(),
    decreases lines.len(),
{
    if lines.len() > 0 {
        lemma_items_ops_len(cur, lines.drop_first(), y - 65);
    }
}

/// Row suppression: with every field but the streets equal, a page whose
/// supplier and customer street are both empty carries two fewer operations,
/// and the cursor leaves the party block exactly one row higher than when at
/// least one street is non-empty.
pub proof fn lemma_row_suppression(d1: InvoiceData, d2: InvoiceData)
    requires
        !street_row(d1),
        street_row(d2),
        d1.due_date@ == d2.due_date@,
        d1.supplier_name@ == d2.supplier_name@,
        d1.customer_name@ == d2.customer_name@,
        d1.supplier_address.city@ == d2.supplier_address.city@,
        d1.supplier_address.postal@ == d2.supplier_address.postal@,
        d1.customer_address.city@ == d2.customer_address.city@,
        d1.customer_address.postal@ == d2.customer_address.postal@,
        d1.supplier_vat@ == d2.supplier_vat@,
        d1.customer_vat@ == d2.customer_vat@,
        d1.lines@.len() == d2.lines@.len(),
    ensures
        after_party_y(d1) == after_party_y(d2) + 65,
        spec_render(d2).len() == spec_render(d1).len() + 2,
{
    lemma_items_ops_len(d1.currency@, d1.lines@, items_y(d1));
    lemma_items_ops_len(d2.currency@, d2.lines@, items_y(d2));
}

/// Appends one text operation.
fn push_text(
    ops: &mut Vec<DrawOp>,
    x: u32,
    y: i128,
    size: u32,
    bold: bool,
    color: PenColor,
    content: String,
)
    ensures
        ops_view(final(ops)@) == ops_view(old(ops)@).push(
            t_op(x as int, y as int, size as int, bold, color, content@),
        ),
{
    broadcast use lemma_ops_view_push;

    ops.push(DrawOp::Text { x, y, size, bold, color, content });
}

/// Appends one divider rule.
fn push_rule(ops: &mut Vec<DrawOp>, y: i128)
    ensures
        ops_view(final(ops)@) == ops_view(old(ops)@).push(rule_op(y as int)),
{
    broadcast use lemma_ops_view_push;

    ops.push(
        DrawOp::Rule { x1: 180, x2: 1920, y, thickness: 3, color: PenColor::GrayLight },
    );
}

/// The concatenation of two string slices.
fn concat2(a: &str, b: &str) -> (r: String)
    ensures
        r@ == a@ + b@,
{
    let mut r = a.to_owned();
    r.append(b);
    r
}

/// The concatenation of three string slices.
fn concat3(a: &str, b: &str, c: &str) -> (r: String)
    ensures
        r@ == a@ + b@ + c@,
{
    let mut r = a.to_owned();
    r.append(b);
    r.append(c);
    r
}

/// The concatenation of four string slices.
fn concat4(a: &str, b: &str, c: &str, d: &str) -> (r: String)
    ensures
        r@ == a@ + b@ + c@ + d@,
{
    let mut r = a.to_owned();
    r.append(b);
    r.append(c);
    r.append(d);
    r
}

/// Extending the rendered prefix by one more line's rows.
proof fn lemma_items_ops_snoc(cur: Seq<char>, lines: Seq<InvoiceLine>, i: int, y: int)
    requires
        0 <= i < lines.len(),
    ensures
        spec_items_ops(cur, lines.take(i + 1), y) == spec_items_ops(cur, lines.take(i), y)
            + spec_line_ops(cur, lines[i], y - 65 * i),
    decreases i,
{
    if i == 0 {
        assert(lines.take(1) =~= seq![lines[0]]);
        assert(lines.take(1).drop_first() =~= Seq::<InvoiceLine>::empty());
        assert(lines.take(0) =~= Seq::<InvoiceLine>::empty());
        assert(spec_items_ops(cur, Seq::<InvoiceLine>::empty(), y - 65)
            =~= Seq::<DrawOpV>::empty());
        assert(spec_items_ops(cur, lines.take(1), y) =~= spec_line_ops(cur, lines[0], y));
    } else {
        lemma_items_ops_snoc(cur, lines.drop_first(), i - 1, y - 65);
        assert(lines.take(i + 1).drop_first() =~= lines.drop_first().take(i));
        assert(lines.take(i).drop_first() =~= lines.drop_first().take(i - 1));
        assert(lines.take(i + 1)[0] == lines[0]);
        assert(lines.take(i)[0] == lines[0]);
        assert(lines.drop_first()[i - 1] == lines[i]);
        assert(spec_items_ops(cur, lines.take(i + 1), y) =~= spec_line_ops(cur, lines[0], y)
            + spec_items_ops(cur, lines.drop_first().take(i), y - 65));
        assert(spec_items_ops(cur, lines.take(i), y) =~= spec_line_ops(cur, lines[0], y)
            + spec_items_ops(cur, lines.drop_first().take(i - 1), y - 65));
        assert(spec_items_ops(cur, lines.take(i + 1), y) =~= spec_items_ops(cur, lines.take(i), y)
            + spec_line_ops(cur, lines[i], y - 65 * i));
    }
}

/// Emits the title and invoice-details block, the first divider, and the
/// party headers; the cursor ends at the name row.
fn emit_head(ops: &mut Vec<DrawOp>, data: &InvoiceData) -> (y: i128)
    ensures
        ops_view(final(ops)@) == ops_view(old(ops)@) + spec_head_ops(*data),
        y == 2400,
{
    let mut y: i128 = 2840;
    push_text(&mut *ops, 180, y, 220, true, PenColor::Accent, String::from_str("INVOICE"));
    y = y - 100;
    push_text(
        &mut *ops,
        180,
        y,
        100,
        true,
        PenColor::Black,
        String::from_str("Invoice details"),
    );
    y = y - 60;
    push_text(
        &mut *ops,
        180,
        y,
        100,
        false,
        PenColor::Black,
        concat2("Invoice Number: ", data.invoice_number.as_str()),
    );
    push_text(
        &mut *ops,
        1100,
        y,
        100,
        false,
        PenColor::Black,
        concat2("Issue Date: ", data.issue_date.as_str()),
    );
    y = y - 65;
    if !data.due_date.as_str().is_empty() {
        push_text(
            &mut *ops,
            1100,
            y,
            100,
            false,
            PenColor::Black,
            concat2("Due Date: ", data.due_date.as_str()),
        );
    }
    y = y - 80;
    push_rule(&mut *ops, y);
    y = y - 70;
    push_text(&mut *ops, 180, y, 110, true, PenColor::Black, String::from_str("Supplier"));
    push_text(&mut *ops, 1100, y, 110, true, PenColor::Black, String::from_str("Customer"));
    y = y - 65;
    proof {
        assert(ops_view(ops@) =~= ops_view(old(ops)@) + spec_head_ops(*data));
    }
    y
}

/// Emits the paired rows of the party block; a row whose two sides are both
/// empty is skipped and the cursor does not move for it.
fn emit_party_rows(ops: &mut Vec<DrawOp>, data: &InvoiceData, y_in: i128) -> (y: i128)
    requires
        y_in == 2400,
    ensures
        ops_view(final(ops)@) == ops_view(old(ops)@) + spec_party_rows_ops(*data),
        y == after_party_y(*data),
{
    let mut y: i128 = y_in;
    if !data.supplier_name.as_str().is_empty() || !data.customer_name.as_str().is_empty() {
        push_text(&mut *ops, 180, y, 100, false, PenColor::Black, data.supplier_name.clone());
        push_text(&mut *ops, 1100, y, 100, false, PenColor::Black, data.customer_name.clone());
        y = y - 65;
    }
    if !data.supplier_address.street.as_str().is_empty()
        || !data.customer_address.street.as_str().is_empty() {
        push_text(
            &mut *ops,
            180,
            y,
            95,
            false,
            PenColor::Black,
            data.supplier_address.street.clone(),
        );
        push_text(
            &mut *ops,
            1100,
            y,
            95,
            false,
            PenColor::Black,
            data.customer_address.street.clone(),
        );
        y = y - 65;
    }
    if !data.supplier_address.city.as_str().is_empty()
        || !data.supplier_address.postal.as_str().is_empty()
        || !data.customer_address.city.as_str().is_empty()
        || !data.customer_address.postal.as_str().is_empty() {
        push_text(
            &mut *ops,
            180,
            y,
            95,
            false,
            PenColor::Black,
            concat3(
                data.supplier_address.city.as_str(),
                " ",
                data.supplier_address.postal.as_str(),
            ),
        );
        push_text(
            &mut *ops,
            1100,
            y,
            95,
            false,
            PenColor::Black,
            concat3(
                data.customer_address.city.as_str(),
                " ",
                data.customer_address.postal.as_str(),
            ),
        );
        y = y - 65;
    }
    if !data.supplier_vat.as_str().is_empty() || !data.customer_vat.as_str().is_empty() {
        push_text(
            &mut *ops,
            180,
            y,
            95,
            false,
            PenColor::Black,
            concat2("VAT: ", data.supplier_vat.as_str()),
        );
        push_text(
            &mut *ops,
            1100,
            y,
            95,
            false,
            PenColor::Black,
            concat2("VAT: ", data.customer_vat.as_str()),
        );
        y = y - 65;
    }
    proof {
        assert(ops_view(ops@) =~= ops_view(old(ops)@) + spec_party_rows_ops(*data));
    }
    y
}

/// Emits the second divider, the items title, the muted items header row and
/// the third divider; the cursor ends at the first item row.
fn emit_items_head(ops: &mut Vec<DrawOp>, data: &InvoiceData, y_in: i128) -> (y: i128)
    requires
        y_in == after_party_y(*data),
    ensures
        ops_view(final(ops)@) == ops_view(old(ops)@) + spec_items_head_ops(*data),
        y == items_y(*data),
{
    let mut y: i128 = y_in;
    y = y - 60;
    push_rule(&mut *ops, y);
    y = y - 70;
    push_text(&mut *ops, 180, y, 110, true, PenColor::Black, String::from_str("Items"));
    y = y - 60;
    push_text(&mut *ops, 180, y, 95, true, PenColor::GrayMuted, String::from_str("Description"));
    push_text(&mut *ops, 1220, y, 95, true, PenColor::GrayMuted, String::from_str("Qty"));
    push_text(&mut *ops, 1450, y, 95, true, PenColor::GrayMuted, String::from_str("Unit"));
    push_text(&mut *ops, 1720, y, 95, true, PenColor::GrayMuted, String::from_str("Total"));
    y = y - 40;
    push_rule(&mut *ops, y);
    y = y - 60;
    proof {
        assert(ops_view(ops@) =~= ops_view(old(ops)@) + spec_items_head_ops(*data));
    }
    y
}

/// Emits one row per line item, in stored order, one row height apart.
fn emit_items(ops: &mut Vec<DrawOp>, data: &InvoiceData, y_in: i128) -> (y: i128)
    requires
        y_in == items_y(*data),
    ensures
        ops_view(final(ops)@) == ops_view(old(ops)@) + spec_items_ops(
            data.currency@,
            data.lines@,
            items_y(*data),
        ),
        y == items_y(*data) - 65 * data.lines@.len(),
{
    let ghost pre = ops_view(ops@);
    let ghost y0 = y_in as int;
    let mut y: i128 = y_in;
    let n = data.lines.len();
    let mut i: usize = 0;
    proof {
        assert(data.lines@.take(0) =~= Seq::<InvoiceLine>::empty());
        assert(spec_items_ops(data.currency@, Seq::<InvoiceLine>::empty(), y0)
            =~= Seq::<DrawOpV>::empty());
        assert(pre + Seq::<DrawOpV>::empty() =~= pre);
    }
    while i < n
        invariant
            0 <= i <= n,
            n == data.lines@.len(),
            y == y0 - 65 * i,
            y0 == items_y(*data),
            y0 <= 2840,
            pre == ops_view(old(ops)@),
            ops_view(ops@) == pre + spec_items_ops(
                data.currency@,
                data.lines@.take(i as int),
                y0,
            ),
        decreases n - i,
    {
        let line = &data.lines[i];
        push_text(&mut *ops, 180, y, 90, false, PenColor::Black, line.description.clone());
        push_text(&mut *ops, 1220, y, 90, false, PenColor::Black, line.quantity.clone());
        push_text(
            &mut *ops,
            1450,
            y,
            90,
            false,
            PenColor::Black,
            concat3(data.currency.as_str(), " ", line.unit_price.as_str()),
        );
        push_text(
            &mut *ops,
            1720,
            y,
            90,
            false,
            PenColor::Black,
            concat3(data.currency.as_str(), " ", line.total.as_str()),
        );
        proof {
            lemma_items_ops_snoc(data.currency@, data.lines@, i as int, y0);
            assert(ops_view(ops@) =~= pre + spec_items_ops(
                data.currency@,
                data.lines@.take(i as int + 1),
                y0,
            ));
        }
        y = y - 65;
        i = i + 1;
    }
    proof {
        assert(data.lines@.take(n as int) =~= data.lines@);
    }
    y
}

/// Emits the final divider and the totals block right of center.
fn emit_totals(ops: &mut Vec<DrawOp>, data: &InvoiceData, y_in: i128)
    requires
        y_in == items_y(*data) - 65 * data.lines@.len(),
    ensures
        ops_view(final(ops)@) == ops_view(old(ops)@) + spec_totals_ops(*data),
{
    let n_lines = data.lines.len();
    proof {
        assert(data.lines@.len() == n_lines);
    }
    let mut y: i128 = y_in;
    y = y - 40;
    push_rule(&mut *ops, y);
    y = y - 70;
    push_text(
        &mut *ops,
        1300,
        y,
        100,
        false,
        PenColor::Black,
        concat4("Subtotal: ", data.currency.as_str(), " ", data.subtotal.as_str()),
    );
    y = y - 65;
    push_text(
        &mut *ops,
        1300,
        y,
        100,
        false,
        PenColor::Black,
        concat4("VAT: ", data.currency.as_str(), " ", data.tax_total.as_str()),
    );
    y = y - 65;
    push_text(
        &mut *ops,
        1300,
        y,
        120,
        true,
        PenColor::Black,
        concat4("Total: ", data.currency.as_str(), " ", data.total.as_str()),
    );
    proof {
        assert(ops_view(ops@) =~= ops_view(old(ops)@) + spec_totals_ops(*data));
    }
}

/// Renders one invoice onto the fixed page: the returned operations are
/// exactly the layout sequence, a deterministic function of the data.
pub fn render_invoice(data: &InvoiceData) -> (ops: Vec<DrawOp>)
    ensures
        ops_view(ops@) == spec_render(*data),
{
    let mut ops: Vec<DrawOp> = Vec::new();
    proof {
        assert(ops_view(ops@) =~= Seq::<DrawOpV>::empty());
    }
    let y = emit_head(&mut ops, data);
    let y = emit_party_rows(&mut ops, data, y);
    let y = emit_items_head(&mut ops, data, y);
    let y = emit_items(&mut ops, data, y);
    emit_totals(&mut ops, data, y);
    proof {
        assert(ops_view(ops@) =~= spec_render(*data));
    }
    ops
}

} // verus!

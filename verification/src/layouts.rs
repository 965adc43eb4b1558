//! The registry of known field layouts and header-driven layout detection.
//!
//! One fully specified layout covers the most common device generation; a
//! reduced fallback layout holds only the fields present across all known
//! generations. Detection maps a frame header to a layout by its tag and
//! never fails: unknown headers degrade to the fallback layout.

use crate::dataprocessor::{
    spec_date_field, spec_number_field, spec_text_field, tag_of, FieldSpecView, FieldSpecification,
    LayoutSpecification, LayoutView,
};
use crate::dataprocessor::layout_tag;
use vstd::prelude::*;

verus! {

/// Field slots of the fully specified layout for the common generation.
pub open spec fn t065004x_fields() -> Seq<FieldSpecView> {
    seq![
        spec_text_field("pvserial"@, 76, 10),
        spec_date_field("date"@, 136),
        spec_number_field("pvstatus"@, 158, 2, 1),
        spec_number_field("pvpowerin"@, 162, 4, 10),
        spec_number_field("pv1voltage"@, 170, 2, 10),
        spec_number_field("pv1current"@, 174, 2, 10),
        spec_number_field("pv1watt"@, 178, 4, 10),
        spec_number_field("pv2voltage"@, 186, 2, 10),
        spec_number_field("pv2current"@, 190, 2, 10),
        spec_number_field("pv2watt"@, 194, 4, 10),
        spec_number_field("pvpowerout"@, 250, 4, 10),
        spec_number_field("pvfrequentie"@, 258, 2, 100),
        spec_number_field("pvgridvoltage"@, 262, 2, 10),
        spec_number_field("pvgridcurrent"@, 266, 2, 10),
        spec_number_field("pvgridpower"@, 270, 4, 10),
        spec_number_field("pvgridvoltage2"@, 278, 2, 10),
        spec_number_field("pvgridcurrent2"@, 282, 2, 10),
        spec_number_field("pvgridpower2"@, 286, 4, 10),
        spec_number_field("pvgridvoltage3"@, 294, 2, 10),
        spec_number_field("pvgridcurrent3"@, 298, 2, 10),
        spec_number_field("pvgridpower3"@, 302, 4, 10),
        spec_number_field("totworktime"@, 346, 4, 7200),
        spec_number_field("pvenergytoday"@, 354, 4, 10),
        spec_number_field("pvenergytotal"@, 362, 4, 10),
        spec_number_field("epvtotal"@, 370, 4, 10),
        spec_number_field("epv1today"@, 378, 4, 10),
        spec_number_field("epv1total"@, 386, 4, 10),
        spec_number_field("epv2today"@, 394, 4, 10),
        spec_number_field("epv2total"@, 402, 4, 10),
        spec_number_field("pvtemperature"@, 530, 2, 10),
        spec_number_field("pvipmtemperature"@, 534, 2, 10),
        spec_number_field("pbusvolt"@, 550, 2, 1),
        spec_number_field("nbusvolt"@, 554, 2, 1),
    ]
}

/// Field slots of the reduced fallback layout.
pub open spec fn t06nnnnx_fields() -> Seq<FieldSpecView> {
    seq![
        spec_text_field("pvserial"@, 76, 10),
        spec_date_field("date"@, 136),
        spec_number_field("pvstatus"@, 158, 2, 1),
        spec_number_field("pvpowerin"@, 162, 4, 10),
        spec_number_field("pv1voltage"@, 170, 2, 10),
        spec_number_field("pv1current"@, 174, 2, 10),
        spec_number_field("pv1watt"@, 178, 4, 10),
        spec_number_field("pv2voltage"@, 186, 2, 10),
        spec_number_field("pv2current"@, 190, 2, 10),
        spec_number_field("pv2watt"@, 194, 4, 10),
        spec_number_field("pvpowerout"@, 250, 4, 10),
        spec_number_field("pvfrequentie"@, 258, 2, 100),
        spec_number_field("pvgridvoltage"@, 262, 2, 10),
        spec_number_field("pvgridcurrent"@, 266, 2, 10),
        spec_number_field("pvenergytoday"@, 354, 4, 10),
        spec_number_field("pvenergytotal"@, 362, 4, 10),
        spec_number_field("pvtemperature"@, 530, 2, 10),
        spec_number_field("pvipmtemperature"@, 534, 2, 10),
    ]
}

/// The fully specified layout for the common device generation.
pub fn t065004x() -> (r: LayoutSpecification)
    ensures
        r@.id == "T065004X"@,
        r@.decrypt == true,
        r@.offset == 0,
        r@.fields == t065004x_fields(),
        r.wf(),
{
    let mut fields: Vec<FieldSpecification> = Vec::new();
    fields.push(FieldSpecification::text("pvserial", 76, 10));
    fields.push(FieldSpecification::date("date", 136));
    fields.push(FieldSpecification::number("pvstatus", 158, 2, 1));
    fields.push(FieldSpecification::number("pvpowerin", 162, 4, 10));
    fields.push(FieldSpecification::number("pv1voltage", 170, 2, 10));
    fields.push(FieldSpecification::number("pv1current", 174, 2, 10));
    fields.push(FieldSpecification::number("pv1watt", 178, 4, 10));
    fields.push(FieldSpecification::number("pv2voltage", 186, 2, 10));
    fields.push(FieldSpecification::number("pv2current", 190, 2, 10));
    fields.push(FieldSpecification::number("pv2watt", 194, 4, 10));
    fields.push(FieldSpecification::number("pvpowerout", 250, 4, 10));
    fields.push(FieldSpecification::number("pvfrequentie", 258, 2, 100));
    fields.push(FieldSpecification::number("pvgridvoltage", 262, 2, 10));
    fields.push(FieldSpecification::number("pvgridcurrent", 266, 2, 10));
    fields.push(FieldSpecification::number("pvgridpower", 270, 4, 10));
    fields.push(FieldSpecification::number("pvgridvoltage2", 278, 2, 10));
    fields.push(FieldSpecification::number("pvgridcurrent2", 282, 2, 10));
    fields.push(FieldSpecification::number("pvgridpower2", 286, 4, 10));
    fields.push(FieldSpecification::number("pvgridvoltage3", 294, 2, 10));
    fields.push(FieldSpecification::number("pvgridcurrent3", 298, 2, 10));
    fields.push(FieldSpecification::number("pvgridpower3", 302, 4, 10));
    fields.push(FieldSpecification::number("totworktime", 346, 4, 7200));
    fields.push(FieldSpecification::number("pvenergytoday", 354, 4, 10));
    fields.push(FieldSpecification::number("pvenergytotal", 362, 4, 10));
    fields.push(FieldSpecification::number("epvtotal", 370, 4, 10));
    fields.push(FieldSpecification::number("epv1today", 378, 4, 10));
    fields.push(FieldSpecification::number("epv1total", 386, 4, 10));
    fields.push(FieldSpecification::number("epv2today", 394, 4, 10));
    fields.push(FieldSpecification::number("epv2total", 402, 4, 10));
    fields.push(FieldSpecification::number("pvtemperature", 530, 2, 10));
    fields.push(FieldSpecification::number("pvipmtemperature", 534, 2, 10));
    fields.push(FieldSpecification::number("pbusvolt", 550, 2, 1));
    fields.push(FieldSpecification::number("nbusvolt", 554, 2, 1));
    let r = LayoutSpecification::new("T065004X", true, fields);
    proof {
        assert(r@.fields =~= t065004x_fields());
    }
    r
}

/// The reduced fallback layout covering only fields present across all
/// known device generations.
pub fn t06nnnnx() -> (r: LayoutSpecification)
    ensures
        r@.id == "t06NNNNX"@,
        r@.decrypt == true,
        r@.offset == 0,
        r@.fields == t06nnnnx_fields(),
        r.wf(),
{
    let mut fields: Vec<FieldSpecification> = Vec::new();
    fields.push(FieldSpecification::text("pvserial", 76, 10));
    fields.push(FieldSpecification::date("date", 136));
    fields.push(FieldSpecification::number("pvstatus", 158, 2, 1));
    fields.push(FieldSpecification::number("pvpowerin", 162, 4, 10));
    fields.push(FieldSpecification::number("pv1voltage", 170, 2, 10));
    fields.push(FieldSpecification::number("pv1current", 174, 2, 10));
    fields.push(FieldSpecification::number("pv1watt", 178, 4, 10));
    fields.push(FieldSpecification::number("pv2voltage", 186, 2, 10));
    fields.push(FieldSpecification::number("pv2current", 190, 2, 10));
    fields.push(FieldSpecification::number("pv2watt", 194, 4, 10));
    fields.push(FieldSpecification::number("pvpowerout", 250, 4, 10));
    fields.push(FieldSpecification::number("pvfrequentie", 258, 2, 100));
    fields.push(FieldSpecification::number("pvgridvoltage", 262, 2, 10));
    fields.push(FieldSpecification::number("pvgridcurrent", 266, 2, 10));
    fields.push(FieldSpecification::number("pvenergytoday", 354, 4, 10));
    fields.push(FieldSpecification::number("pvenergytotal", 362, 4, 10));
    fields.push(FieldSpecification::number("pvtemperature", 530, 2, 10));
    fields.push(FieldSpecification::number("pvipmtemperature", 534, 2, 10));
    let r = LayoutSpecification::new("t06NNNNX", true, fields);
    proof {
        assert(r@.fields =~= t06nnnnx_fields());
    }
    r
}

/// Image of the fallback layout.
pub open spec fn fallback_view() -> LayoutView {
    LayoutView { id: "t06NNNNX"@, decrypt: true, fields: t06nnnnx_fields(), offset: 0 }
}

/// The layout that a frame header resolves to: the fully specified layout
/// on an exact tag match, the fallback otherwise.
///
/// Note that the registry key `"T065004X"` is unreachable under the tag
/// rule: the trailing `'X'` is appended only for the smart-meter class
/// bytes 0x20 and 0x1b, while the rest of the key demands class byte 0x04.
/// Detection therefore always degrades to the fallback layout in practice;
/// the key is kept as the vendor protocol defines it.
pub open spec fn detect_model(header: Seq<u8>) -> LayoutView
    recommends
        header.len() == 8,
{
    if tag_of(header) == "T065004X"@ {
        LayoutView { id: "T065004X"@, decrypt: true, fields: t065004x_fields(), offset: 0 }
    } else {
        fallback_view()
    }
}

/// Resolves a frame header to a layout; detection never fails, unknown
/// headers fall back to the reduced layout.
pub fn detect_layout(header: &[u8; 8]) -> (r: LayoutSpecification)
    ensures
        r@ == detect_model(header@),
        r.wf(),
{
    let tag = layout_tag(header);
    let target = String::from_str("T065004X");
    if tag.eq(&target) {
        t065004x()
    } else {
        t06nnnnx()
    }
}

} // verus!

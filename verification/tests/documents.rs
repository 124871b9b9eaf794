//! Document transforms: selection, colour overrides, stroke widening,
//! parsing and serialization.

use blobfox_template::color::{set_fill, set_stroke};
use blobfox_template::dec::{dec_add, dec_format, Dec};
use blobfox_template::select::query_selector;
use blobfox_template::serialize::xml_to_string;
use blobfox_template::snuggle::{bolden, generate_snuggle};
use blobfox_template::xml::Elem;
use blobfox_template::xmlload::get_xml;

#[test]
fn parse_reads_names_attributes_children() {
    let doc = get_xml("<svg a=\"1\"><b/>text</svg>").expect("parses");
    assert_eq!(doc.name, "svg");
    assert_eq!(doc.get_attr("a").unwrap(), "1");
    assert_eq!(doc.children.len(), 2);
    assert!(get_xml("<unclosed").is_none());
}

#[test]
fn serializer_is_deterministic_and_indented() {
    assert_eq!(xml_to_string(&Elem::new("svg")), "<svg/>\n");
    let doc = get_xml("<svg><rect fill=\"red\"/></svg>").expect("parses");
    assert_eq!(xml_to_string(&doc), "<svg>\n  <rect fill=\"red\"/>\n</svg>\n");
}

#[test]
fn serializer_escapes_text_and_attributes() {
    let doc = get_xml("<t a=\"x&amp;y\">1 &lt; 2</t>").expect("parses");
    let out = xml_to_string(&doc);
    assert!(out.contains("a=\"x&amp;y\""));
    assert!(out.contains("1 &lt; 2"));
    // the output parses back to the same content
    let again = get_xml(&out).expect("reparses");
    assert_eq!(again.get_attr("a").unwrap(), "x&y");
}

#[test]
fn empty_selector_flattens_into_wrapper() {
    let doc = get_xml("<svg w=\"9\"><a/><b/></svg>").expect("parses");
    let flat = query_selector(doc, "").expect("wrapper");
    assert_eq!(flat.name, "g");
    assert!(flat.get_attr("w").is_none());
    assert_eq!(flat.children.len(), 2);
}

#[test]
fn id_selector_finds_first_match_depth_first() {
    let doc = get_xml(
        "<svg><g><rect id=\"foo\" k=\"inner\"/></g><rect id=\"foo\" k=\"outer\"/></svg>",
    )
    .expect("parses");
    let hit = query_selector(doc, "#foo").expect("found");
    assert_eq!(hit.get_attr("k").unwrap(), "inner");
}

#[test]
fn id_selector_ignores_non_id_attributes() {
    let doc = get_xml("<svg><rect class=\"foo\"/></svg>").expect("parses");
    assert!(query_selector(doc, "#foo").is_none());
}

#[test]
fn set_fill_rewrites_attribute_exactly() {
    let mut doc = get_xml("<rect fill=\"red\" x=\"3\"/>").expect("parses");
    set_fill("#112233", &mut doc);
    assert_eq!(doc.get_attr("fill").unwrap(), "#112233");
    assert_eq!(doc.get_attr("x").unwrap(), "3");
    assert_eq!(doc.attributes.len(), 2);
}

#[test]
fn set_fill_normalizes_named_colors() {
    let mut doc = get_xml("<rect fill=\"green\"/>").expect("parses");
    set_fill("red", &mut doc);
    assert_eq!(doc.get_attr("fill").unwrap(), "#ff0000");
}

#[test]
fn set_fill_rewrites_style_rules_preserving_stroke() {
    let mut doc = get_xml("<g style=\"fill:red;stroke:blue;\"/>").expect("parses");
    set_fill("#112233", &mut doc);
    assert_eq!(
        doc.get_attr("style").unwrap(),
        "stroke:blue;fill: #112233;;fill-opacity: 1;"
    );
}

#[test]
fn set_fill_descends_into_children() {
    let mut doc = get_xml("<svg><g><rect fill=\"red\"/></g><circle r=\"1\"/></svg>").expect("ok");
    set_fill("blue", &mut doc);
    let out = xml_to_string(&doc);
    assert!(out.contains("fill=\"#0000ff\""));
    assert!(out.contains("r=\"1\""));
}

#[test]
fn set_stroke_touches_only_stroke() {
    let mut doc = get_xml("<rect fill=\"red\" stroke=\"green\"/>").expect("parses");
    set_stroke("black", &mut doc);
    assert_eq!(doc.get_attr("fill").unwrap(), "red");
    assert_eq!(doc.get_attr("stroke").unwrap(), "#000000");
}

#[test]
fn bolden_gains_stroke_width_equal_to_amount() {
    let amount = Dec::parse("2.5").expect("amount");
    let mut doc = get_xml("<rect fill=\"red\"/>").expect("parses");
    bolden(amount, &mut doc);
    assert_eq!(doc.get_attr("stroke-width").unwrap(), "2.5");
}

#[test]
fn bolden_adds_to_existing_stroke_width() {
    let amount = Dec::parse("2.5").expect("amount");
    let mut doc = get_xml("<rect stroke-width=\"2\"/>").expect("parses");
    bolden(amount, &mut doc);
    assert_eq!(doc.get_attr("stroke-width").unwrap(), "4.5");
}

#[test]
fn bolden_leaves_undrawn_elements_alone() {
    let amount = Dec::parse("2.5").expect("amount");
    let mut doc = get_xml("<circle r=\"1\"/>").expect("parses");
    bolden(amount, &mut doc);
    assert!(doc.get_attr("stroke-width").is_none());
    assert_eq!(doc.attributes.len(), 1);
}

#[test]
fn bolden_rewrites_style_strings() {
    let amount = Dec::parse("1.5").expect("amount");
    let mut doc = get_xml("<g style=\"fill:red;\"/>").expect("parses");
    bolden(amount, &mut doc);
    assert_eq!(doc.get_attr("style").unwrap(), "fill:red;stroke-width: 1.5;");
}

#[test]
fn decimal_arithmetic_is_exact() {
    let a = Dec::parse("2.5").expect("a");
    let b = Dec::parse("0.25").expect("b");
    assert_eq!(dec_format(dec_add(a, b)), "2.75");
    let c = Dec::parse("2.50").expect("c");
    let d = Dec::parse("0.50").expect("d");
    assert_eq!(dec_format(dec_add(c, d)), "3");
    // bare-dot forms read as the usual float parsing would
    let e = Dec::parse(".5").expect("leading dot");
    let f = Dec::parse("2.").expect("trailing dot");
    assert_eq!(dec_format(dec_add(e, f)), "2.5");
    assert!(Dec::parse("x").is_none());
    assert!(Dec::parse("1.2.3").is_none());
    assert!(Dec::parse(".").is_none());
    assert!(Dec::parse("").is_none());
}

#[test]
fn snuggle_builds_mask_and_groups() {
    let left = get_xml("<svg><rect id=\"l\"/></svg>").expect("left");
    let right = get_xml("<svg><rect id=\"r\" fill=\"red\"/></svg>").expect("right");
    let bold = Dec::parse("5").expect("bold");
    let out = generate_snuggle(
        &left,
        &right,
        "0",
        "0",
        "128",
        "128",
        "scale(1)",
        "translate(10 20)",
        bold,
    );
    assert_eq!(out.name, "svg");
    let text = xml_to_string(&out);
    assert!(text.contains("mask"));
    assert!(text.contains("snuggle-mask"));
    // the cutout copy of the right emote was blackened and widened
    assert!(text.contains("fill=\"#000000\""));
    assert!(text.contains("stroke-width=\"5\""));
    // the untouched right emote is still present
    assert!(text.contains("fill=\"red\""));
    assert!(text.contains("translate(10 20)"));
}

//! Export preparation, declaration merging, emote assembly and the small
//! text utilities.

use blobfox_template::clean::clean;
use blobfox_template::decl;
use blobfox_template::dict::Dict;
use blobfox_template::emote::{construct_emote, parent_dir, Emote};
use blobfox_template::export::{combine_defs, resize, strip_marked, xml_to_str};
use blobfox_template::parse::{parse_css, SpeciesDecl};
use blobfox_template::transform::parse_transform;
use blobfox_template::xmlload::get_xml;

#[test]
fn css_rules_split_on_first_colon_and_trim_names() {
    let rules = parse_css("fill:red; stroke:blue;broken;u:a:b");
    let got: Vec<(&str, &str)> = rules.iter().map(|p| (p.0.as_str(), p.1.as_str())).collect();
    assert_eq!(got, vec![("fill", "red"), ("stroke", "blue"), ("u", "a:b")]);
}

#[test]
fn transform_attribute_splits_at_depth_zero() {
    let parts = parse_transform("translate(1 2) rotate(30)");
    let got: Vec<(&str, &str)> = parts.iter().map(|p| (p.0.as_str(), p.1.as_str())).collect();
    assert_eq!(got, vec![("translate", "1 2"), ("rotate", "30")]);
    let nested = parse_transform("a(b(c) d)");
    let got: Vec<(&str, &str)> = nested.iter().map(|p| (p.0.as_str(), p.1.as_str())).collect();
    assert_eq!(got, vec![("a", "b(c) d")]);
}

#[test]
fn override_law_on_merged_declarations() {
    let mut parent = SpeciesDecl::empty("base".to_owned());
    parent.variant_paths.insert("idle".to_owned(), "parent/idle".to_owned());
    parent.variant_paths.insert("sleep".to_owned(), "parent/sleep".to_owned());
    parent.vars.insert("mood".to_owned(), "plain".to_owned());
    parent.vars.insert("size".to_owned(), "big".to_owned());

    let mut child = SpeciesDecl::empty("kit".to_owned());
    child.variant_paths.insert("idle".to_owned(), "child/idle".to_owned());
    child.vars.insert("mood".to_owned(), "happy".to_owned());

    let merged = child.adopt_parent(parent);
    // the child's file path wins; a parent-only name stays reachable
    assert_eq!(merged.variant_paths.get("idle").unwrap(), "child/idle");
    assert_eq!(merged.variant_paths.get("sleep").unwrap(), "parent/sleep");
    // child vars kept, parent's fill the gaps
    assert_eq!(merged.vars.get("mood").unwrap(), "happy");
    assert_eq!(merged.vars.get("size").unwrap(), "big");
    assert_eq!(merged.name, "kit");
}

#[test]
fn empty_child_tag_table_adopts_the_parents_whole() {
    let mut parent = SpeciesDecl::empty("base".to_owned());
    parent.variants.insert("idle".to_owned(), vec!["winter".to_owned()]);
    let child = SpeciesDecl::empty("kit".to_owned());
    let merged = child.adopt_parent(parent);
    assert_eq!(merged.variants.get("idle").unwrap(), &vec!["winter".to_owned()]);
}

#[test]
fn strip_removes_marked_subtrees() {
    let out = strip_marked(
        "<svg><g demo-skip=\"true\"><a/></g><b demo-skip=\"false\"/></svg>",
        "demo-skip",
    )
    .expect("strips");
    assert!(!out.contains("<a/>"));
    assert!(out.contains("<b"));
    assert!(strip_marked("<oops", "demo-skip").is_err());
}

#[test]
fn combine_defs_collects_and_flattens() {
    let out = combine_defs(
        "<svg><defs><a/></defs><g><defs><b/></defs><c/></g></svg>".to_owned(),
    )
    .expect("combines");
    let doc = get_xml(&out).expect("parses back");
    // one defs element, first, carrying id="defs", holding a then b
    let first = match &doc.children[0] {
        blobfox_template::xml::Node::Element(e) => e,
        _ => panic!("defs expected first"),
    };
    assert_eq!(first.name, "defs");
    assert_eq!(first.get_attr("id").unwrap(), "defs");
    assert_eq!(first.children.len(), 2);
    // the nested defs is gone from the group
    assert!(!out.replace("<defs", "").contains("defs>") || out.matches("<defs").count() == 1);
}

#[test]
fn resize_sets_the_view_box() {
    let out = resize("<svg old=\"1\"/>".to_owned(), "0 0 10 10").expect("resizes");
    assert!(out.contains("viewBox=\"0 0 10 10\""));
    assert!(out.contains("old=\"1\""));
    assert!(resize("<oops".to_owned(), "0 0 1 1").is_err());
}

#[test]
fn document_header_precedes_serialized_root() {
    let doc = get_xml("<svg/>").expect("parses");
    let out = xml_to_str(&doc).expect("serializes");
    assert_eq!(out, "<?xml version=\"1.0\" encoding=\"UTF-8\"?>\n<svg/>\n");
}

#[test]
fn clean_promotes_unique_labels_to_ids() {
    let mut doc = get_xml(
        "<svg><g label=\"x\"/><g label=\"y\"/><g label=\"y\"/></svg>",
    )
    .expect("parses");
    clean(&mut doc);
    let first = match &doc.children[0] {
        blobfox_template::xml::Node::Element(e) => e,
        _ => panic!("element expected"),
    };
    assert_eq!(first.get_attr("id").unwrap(), "x");
    let second = match &doc.children[1] {
        blobfox_template::xml::Node::Element(e) => e,
        _ => panic!("element expected"),
    };
    assert!(second.get_attr("id").is_none());
}

#[test]
fn declaration_join_merges_variant_tables() {
    let child = decl::Declaration {
        name: "kit".to_owned(),
        base: Some("base.yaml".to_owned()),
        variants: vec![(
            "idle".to_owned(),
            decl::Variant { base: None, src: None, assets: Vec::new(), overwrites: Vec::new() },
        )],
    };
    let parent = decl::Declaration {
        name: "base".to_owned(),
        base: None,
        variants: vec![
            (
                "idle".to_owned(),
                decl::Variant {
                    base: None,
                    src: Some("idle.svg".to_owned()),
                    assets: Vec::new(),
                    overwrites: Vec::new(),
                },
            ),
            (
                "sleep".to_owned(),
                decl::Variant { base: None, src: None, assets: Vec::new(), overwrites: Vec::new() },
            ),
        ],
    };
    let joined = child.join(parent);
    assert_eq!(joined.name, "kit");
    assert_eq!(joined.base.as_deref(), None);
    assert_eq!(joined.variants.len(), 2);
    assert_eq!(joined.variants[0].0, "idle");
    assert_eq!(joined.variants[0].1.src.as_deref(), Some("idle.svg"));
    assert_eq!(joined.variants[1].0, "sleep");
}

#[test]
fn variant_canonicalize_resolves_relative_paths() {
    let mut d = decl::Declaration {
        name: "kit".to_owned(),
        base: None,
        variants: vec![(
            "idle".to_owned(),
            decl::Variant {
                base: None,
                src: Some("idle.svg".to_owned()),
                assets: vec![decl::Asset { name: "paw".to_owned(), src: Some("/abs/paw.svg".to_owned()) }],
                overwrites: Vec::new(),
            },
        )],
    };
    d.canonicalize("decls/kit.yaml");
    assert_eq!(d.variants[0].1.src.as_deref(), Some("decls/idle.svg"));
    assert_eq!(d.variants[0].1.assets[0].src.as_deref(), Some("/abs/paw.svg"));
    assert_eq!(parent_dir("kit.yaml"), ".");
}

#[test]
fn emote_from_xml_flattens_groups_and_keys_by_label() {
    let doc = get_xml(
        "<svg><g><rect label=\"body\" w=\"1\"/></g><title/><circle id=\"eye\"/></svg>",
    )
    .expect("parses");
    let emote = Emote::from_xml(doc).expect("builds");
    let body = emote.assets.get("body").expect("body asset");
    assert_eq!(body.element().get_attr("w").unwrap(), "1");
    assert!(emote.assets.get("eye").is_some());
    assert!(emote.assets.get("title").is_none());
}

#[test]
fn construct_emote_builds_base_chain() {
    let declaration = decl::Declaration {
        name: "kit".to_owned(),
        base: None,
        variants: vec![
            (
                "base".to_owned(),
                decl::Variant {
                    base: None,
                    src: Some("base.svg".to_owned()),
                    assets: Vec::new(),
                    overwrites: Vec::new(),
                },
            ),
            (
                "wink".to_owned(),
                decl::Variant {
                    base: Some("base".to_owned()),
                    src: None,
                    assets: vec![decl::Asset {
                        name: "eye".to_owned(),
                        src: Some("eye.svg".to_owned()),
                    }],
                    overwrites: Vec::new(),
                },
            ),
        ],
    };
    let mut files: Dict<String> = Dict::new();
    files.insert("base.svg".to_owned(), "<svg><rect label=\"body\"/></svg>".to_owned());
    files.insert("eye.svg".to_owned(), "<svg><path d=\"M0\"/></svg>".to_owned());
    let mut emotes: Dict<Emote> = Dict::new();
    let built = construct_emote("wink", &declaration, &mut emotes, &files, 8).expect("builds");
    assert!(built.assets.get("body").is_some());
    assert!(built.assets.get("eye").is_some());
    assert!(construct_emote("gone", &declaration, &mut emotes, &files, 8).is_none());
}

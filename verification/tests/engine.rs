//! The rendering context: memoization, tag flags, inheritance, partials.

use blobfox_template::dict::Dict;
use blobfox_template::parse::SpeciesDecl;
use blobfox_template::context::RenderingContext;
use blobfox_template::serialize::xml_to_string;
use blobfox_template::select::query_selector;
use blobfox_template::template::TemplateError;

fn base_species() -> (SpeciesDecl, Dict<String>) {
    let mut parent = SpeciesDecl::empty("base".to_owned());
    parent
        .variant_paths
        .insert("idle".to_owned(), "base/variants/idle.svg".to_owned());
    parent.vars.insert("mood".to_owned(), "plain".to_owned());

    let mut child = SpeciesDecl::empty("kit".to_owned());
    child.vars.insert("mood".to_owned(), "happy".to_owned());
    let child = child.adopt_parent(parent);

    let mut files: Dict<String> = Dict::new();
    files.insert(
        "base/variants/idle.svg".to_owned(),
        "<svg mood=\"{{vars.mood}}\"><rect id=\"body\" fill=\"gray\"/></svg>".to_owned(),
    );
    (child, files)
}

#[test]
fn renders_inherited_variant_with_child_vars() {
    let (species, files) = base_species();
    let mut ctx = RenderingContext::new(species, files);
    let doc = ctx.get_variant("idle").expect("variant renders");
    assert_eq!(doc.name, "svg");
    let mood = doc.get_attr("mood").expect("mood attribute");
    assert_eq!(mood, "happy");
    let body = query_selector(doc, "#body").expect("body found");
    assert_eq!(body.name, "rect");
    assert_eq!(body.get_attr("fill").unwrap(), "gray");
}

#[test]
fn render_twice_is_byte_identical_and_compiles_once() {
    let (species, files) = base_species();
    let mut ctx = RenderingContext::new(species, files);
    let first = ctx.get_variant("idle").expect("first render");
    let count_after_first = ctx.compilations();
    assert!(count_after_first >= 1);
    let second = ctx.get_variant("idle").expect("second render");
    assert_eq!(ctx.compilations(), count_after_first);
    assert_eq!(xml_to_string(&first), xml_to_string(&second));
}

#[test]
fn unknown_variant_is_a_soft_miss() {
    let (species, files) = base_species();
    let mut ctx = RenderingContext::new(species, files);
    assert!(ctx.get_variant("grin").is_none());
}

#[test]
fn tags_gate_sections_and_read_true() {
    let mut species = SpeciesDecl::empty("kit".to_owned());
    species
        .variant_paths
        .insert("idle".to_owned(), "v/idle.svg".to_owned());
    species
        .variants
        .insert("idle".to_owned(), vec!["winter".to_owned()]);
    let mut files: Dict<String> = Dict::new();
    files.insert(
        "v/idle.svg".to_owned(),
        "<svg w=\"{{tags.winter}}\" s=\"{{tags.summer}}\">{{#tags.winter}}<hat/>{{/tags.winter}}{{#tags.summer}}<sun/>{{/tags.summer}}</svg>"
            .to_owned(),
    );
    let mut ctx = RenderingContext::new(species, files);
    let doc = ctx.get_variant("idle").expect("renders");
    assert_eq!(doc.get_attr("w").unwrap(), "true");
    assert_eq!(doc.get_attr("s").unwrap(), "");
    let out = xml_to_string(&doc);
    assert!(out.contains("<hat/>"));
    assert!(!out.contains("<sun/>"));
}

#[test]
fn variants_can_embed_each_other() {
    let mut species = SpeciesDecl::empty("kit".to_owned());
    species
        .variant_paths
        .insert("eyes".to_owned(), "v/eyes.svg".to_owned());
    species
        .variant_paths
        .insert("idle".to_owned(), "v/idle.svg".to_owned());
    let mut files: Dict<String> = Dict::new();
    files.insert(
        "v/eyes.svg".to_owned(),
        "<svg><circle id=\"pupil\" r=\"1\"/></svg>".to_owned(),
    );
    files.insert(
        "v/idle.svg".to_owned(),
        "<svg>{{#variant.eyes}}#pupil{{/variant.eyes}}</svg>".to_owned(),
    );
    let mut ctx = RenderingContext::new(species, files);
    let doc = ctx.get_variant("idle").expect("renders");
    let out = xml_to_string(&doc);
    assert!(out.contains("circle"));
    assert!(out.contains("r=\"1\""));
}

#[test]
fn assets_resolve_with_empty_selector() {
    let mut species = SpeciesDecl::empty("kit".to_owned());
    species
        .variant_paths
        .insert("idle".to_owned(), "v/idle.svg".to_owned());
    species
        .asset_paths
        .insert("paw".to_owned(), "a/paw.svg".to_owned());
    let mut files: Dict<String> = Dict::new();
    files.insert("a/paw.svg".to_owned(), "<svg><path d=\"M0\"/></svg>".to_owned());
    files.insert("v/idle.svg".to_owned(), "<svg>{{#paw}}{{/paw}}</svg>".to_owned());
    let mut ctx = RenderingContext::new(species, files);
    let doc = ctx.get_variant("idle").expect("renders");
    let out = xml_to_string(&doc);
    // the empty selector flattens the asset's children into a <g> wrapper
    assert!(out.contains("<g>"));
    assert!(out.contains("path"));
}

#[test]
fn partials_resolve_by_bare_and_qualified_name() {
    let mut parent = SpeciesDecl::empty("base".to_owned());
    parent
        .template_paths
        .insert("ear".to_owned(), "t/ear.svg".to_owned());
    let child = SpeciesDecl::empty("kit".to_owned()).adopt_parent(parent);
    let mut files: Dict<String> = Dict::new();
    files.insert("t/ear.svg".to_owned(), "<ear/>".to_owned());
    let ctx = RenderingContext::new(child, files);
    // inherited template index: bare name resolves at the child level
    assert_eq!(ctx.load("ear").unwrap(), "<ear/>");
    // the child's own qualified form
    assert_eq!(ctx.load("kit.ear").unwrap(), "<ear/>");
    // the ancestor's qualified form is delegated up the chain
    assert_eq!(ctx.load("base.ear").unwrap(), "<ear/>");
    assert!(ctx.load("fox.ear").is_err());
    assert!(ctx.load("nothing").is_err());
}

#[test]
fn ancestor_bindings_are_reachable_by_species_name() {
    let mut parent = SpeciesDecl::empty("base".to_owned());
    parent.vars.insert("mood".to_owned(), "plain".to_owned());
    let mut child = SpeciesDecl::empty("kit".to_owned());
    child.vars.insert("mood".to_owned(), "happy".to_owned());
    let mut child = child.adopt_parent(parent);
    child
        .variant_paths
        .insert("idle".to_owned(), "v/idle.svg".to_owned());
    let mut files: Dict<String> = Dict::new();
    files.insert(
        "v/idle.svg".to_owned(),
        "<svg own=\"{{vars.mood}}\" inherited=\"{{base.vars.mood}}\"/>".to_owned(),
    );
    let mut ctx = RenderingContext::new(child, files);
    let doc = ctx.get_variant("idle").expect("renders");
    assert_eq!(doc.get_attr("own").unwrap(), "happy");
    assert_eq!(doc.get_attr("inherited").unwrap(), "plain");
}

#[test]
fn render_to_string_interpolates_and_escapes() {
    let mut species = SpeciesDecl::empty("kit".to_owned());
    species.vars.insert("mood".to_owned(), "gl<ad".to_owned());
    let files: Dict<String> = Dict::new();
    let mut ctx = RenderingContext::new(species, files);
    let out = ctx
        .render_to_string("mood: {{vars.mood}}; gone: {{vars.nope}}.", "idle")
        .expect("renders");
    assert_eq!(out, "mood: gl&lt;ad; gone: .");
}

#[test]
fn set_fill_function_rewrites_embedded_fragment() {
    let mut species = SpeciesDecl::empty("kit".to_owned());
    species
        .variant_paths
        .insert("idle".to_owned(), "v/idle.svg".to_owned());
    let mut files: Dict<String> = Dict::new();
    files.insert(
        "v/idle.svg".to_owned(),
        "<svg>{{#set-fill}}#112233|<rect fill=\"red\"/>{{/set-fill}}</svg>".to_owned(),
    );
    let mut ctx = RenderingContext::new(species, files);
    let doc = ctx.get_variant("idle").expect("renders");
    let rect = &doc.children;
    assert!(rect.len() >= 1);
    let out = xml_to_string(&doc);
    assert!(out.contains("fill=\"#112233\""));
}

#[test]
fn set_fill_with_missing_pipe_yields_diagnostic_comment() {
    let mut species = SpeciesDecl::empty("kit".to_owned());
    species
        .variant_paths
        .insert("idle".to_owned(), "v/idle.svg".to_owned());
    let mut files: Dict<String> = Dict::new();
    files.insert(
        "v/idle.svg".to_owned(),
        "<svg>{{#set-fill}}red{{/set-fill}}</svg>".to_owned(),
    );
    let mut ctx = RenderingContext::new(species, files);
    let doc = ctx.get_variant("idle").expect("renders");
    let out = xml_to_string(&doc);
    assert!(out.contains("Invalid syntax"));
}

#[test]
fn compile_rejects_unterminated_tag() {
    let mut species = SpeciesDecl::empty("kit".to_owned());
    let mut files: Dict<String> = Dict::new();
    files.insert("t".to_owned(), "hello {{oops".to_owned());
    let mut ctx = RenderingContext::new(species, files);
    match ctx.compile("t") {
        Err(TemplateError::Syntax) => {}
        _ => panic!("expected a syntax error"),
    }
    // an unclosed section is refused too
    let mut files2: Dict<String> = Dict::new();
    files2.insert("t".to_owned(), "{{#a}}never closed".to_owned());
    species = SpeciesDecl::empty("kit".to_owned());
    let mut ctx2 = RenderingContext::new(species, files2);
    assert!(ctx2.compile("t").is_err());
}

#[test]
fn self_including_partial_is_cut_off() {
    let mut species = SpeciesDecl::empty("kit".to_owned());
    species
        .template_paths
        .insert("spiral".to_owned(), "t/spiral.svg".to_owned());
    let mut files: Dict<String> = Dict::new();
    files.insert("t/spiral.svg".to_owned(), "<a/>{{>spiral}}".to_owned());
    let mut ctx = RenderingContext::new(species, files);
    match ctx.render_to_string("{{>spiral}}", "idle") {
        Err(TemplateError::Depth) => {}
        _ => panic!("expected the recursion allowance to run out"),
    }
}

#[test]
fn missing_partial_fails_that_variant_only() {
    let mut species = SpeciesDecl::empty("kit".to_owned());
    species
        .variant_paths
        .insert("broken".to_owned(), "v/broken.svg".to_owned());
    species
        .variant_paths
        .insert("fine".to_owned(), "v/fine.svg".to_owned());
    let mut files: Dict<String> = Dict::new();
    files.insert("v/broken.svg".to_owned(), "<svg>{{>nothing}}</svg>".to_owned());
    files.insert("v/fine.svg".to_owned(), "<svg/>".to_owned());
    let mut ctx = RenderingContext::new(species, files);
    assert!(ctx.get_variant("broken").is_none());
    assert!(ctx.get_variant("fine").is_some());
}

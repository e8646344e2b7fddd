use sitegen::dict::Dict;
use sitegen::errors::BuildError;
use sitegen::front_matter::parse;
use sitegen::render::resolve_layouts;
use sitegen::render::DocKind;
use sitegen::site::Site;
use sitegen::site::SourceDoc;

fn dict_of(pairs: &[(&str, &str)]) -> Dict {
    let mut d = Dict::new();
    for (k, v) in pairs {
        d.insert((*k).to_string(), (*v).to_string());
    }
    d
}

#[test]
fn parse_no_header_returns_whole_body() {
    let (fm, body) = parse("just text").unwrap();
    assert!(fm.is_none());
    assert_eq!(body, "just text");
}

#[test]
fn parse_header_and_body() {
    let raw = "---\ntitle: Hello\nlayout: page\n---\nBody text\n";
    let (fm, body) = parse(raw).unwrap();
    let fm = fm.unwrap();
    assert_eq!(fm.get("title"), Some(&"Hello".to_string()));
    assert_eq!(fm.get("layout"), Some(&"page".to_string()));
    assert_eq!(body, "Body text\n");
}

#[test]
fn parse_round_trip_reconstructs_document() {
    let raw = "---\ntitle: Hello\nlayout: page\n---\nBody text\n";
    let (fm, body) = parse(raw).unwrap();
    let fm = fm.unwrap();
    let mut rejoined = String::from("---\n");
    for (k, v) in &fm.entries {
        rejoined.push_str(k);
        rejoined.push_str(": ");
        rejoined.push_str(v);
        rejoined.push('\n');
    }
    rejoined.push_str("---\n");
    rejoined.push_str(&body);
    let (fm2, body2) = parse(&rejoined).unwrap();
    assert_eq!(fm2.unwrap(), fm);
    assert_eq!(body2, body);
}

#[test]
fn parse_unclosed_header_is_malformed() {
    assert_eq!(parse("---\ntitle: x\n"), Err(BuildError::MalformedHeader));
}

#[test]
fn parse_header_line_without_colon_is_malformed() {
    assert_eq!(parse("---\nnocolon\n---\nbody"), Err(BuildError::MalformedHeader));
}

#[test]
fn parse_empty_header_block() {
    let (fm, body) = parse("---\n---\nbody").unwrap();
    let fm = fm.unwrap();
    assert_eq!(fm.len(), 0);
    assert_eq!(body, "body");
}

#[test]
fn parse_close_at_end_of_input_gives_empty_body() {
    let (fm, body) = parse("---\na: b\n---").unwrap();
    assert_eq!(fm.unwrap().get("a"), Some(&"b".to_string()));
    assert_eq!(body, "");
}

#[test]
fn parse_trims_leading_value_spaces_and_keeps_colons() {
    let (fm, _) = parse("---\nk:   spaced\nu: http://x\n---\n").unwrap();
    let fm = fm.unwrap();
    assert_eq!(fm.get("k"), Some(&"spaced".to_string()));
    assert_eq!(fm.get("u"), Some(&"http://x".to_string()));
}

#[test]
fn dict_last_binding_wins() {
    let d = dict_of(&[("k", "first"), ("k", "second")]);
    assert_eq!(d.get("k"), Some(&"second".to_string()));
}

#[test]
fn dict_get_missing_is_none() {
    let d = dict_of(&[("k", "v")]);
    assert_eq!(d.get("absent"), None);
}

#[test]
fn layout_chain_wraps_innermost_first() {
    let store = dict_of(&[
        ("A", "---\nlayout: B\n---\na({{ content }})"),
        ("B", "---\nlayout: C\n---\nb({{ content }})"),
        ("C", "c({{ content }})"),
    ]);
    let ctx = dict_of(&[("content", "X")]);
    let out = resolve_layouts(&store, "A", &ctx).unwrap();
    assert_eq!(out, "c(b(a(X)))");
}

#[test]
fn layout_cycle_is_reported_not_followed() {
    let store = dict_of(&[
        ("A", "---\nlayout: B\n---\na({{ content }})"),
        ("B", "---\nlayout: A\n---\nb({{ content }})"),
    ]);
    let ctx = dict_of(&[("content", "X")]);
    let err = resolve_layouts(&store, "A", &ctx).unwrap_err();
    assert_eq!(
        err,
        BuildError::LayoutCycle {
            chain: vec!["A".to_string(), "B".to_string(), "A".to_string()],
        }
    );
}

#[test]
fn unknown_layout_is_an_io_error() {
    let store = dict_of(&[("A", "a({{ content }})")]);
    let ctx = dict_of(&[("content", "X")]);
    assert_eq!(
        resolve_layouts(&store, "nope", &ctx),
        Err(BuildError::Io { path: "nope".to_string() })
    );
}

#[test]
fn unresolved_template_variable_is_a_template_error() {
    let store = dict_of(&[("A", "{{ nosuchvar }}")]);
    let ctx = dict_of(&[("content", "X")]);
    assert_eq!(resolve_layouts(&store, "A", &ctx), Err(BuildError::Template));
}

fn test_site() -> Site {
    Site::new("blog")
}

fn post_store() -> Dict {
    dict_of(&[("post", "P[{{ content }}]")])
}

fn doc(rel: &str, kind: DocKind, text: &str) -> SourceDoc {
    SourceDoc { rel_path: rel.to_string(), kind, text: text.to_string() }
}

#[test]
fn page_missing_title_fails_with_that_field() {
    let site = test_site();
    let store = dict_of(&[("page", "[{{ content }}]")]);
    let d = doc("a.md", DocKind::Page, "---\nlayout: page\n---\nhi");
    let err = site.render_document(&d, &store).unwrap_err();
    assert_eq!(err, BuildError::MissingRequiredField { field: "title".to_string() });
}

#[test]
fn page_missing_layout_fails_with_that_field() {
    let site = test_site();
    let store = dict_of(&[("page", "[{{ content }}]")]);
    let d = doc("a.md", DocKind::Page, "---\ntitle: T\n---\nhi");
    let err = site.render_document(&d, &store).unwrap_err();
    assert_eq!(err, BuildError::MissingRequiredField { field: "layout".to_string() });
}

#[test]
fn document_without_header_lacks_front_matter() {
    let site = test_site();
    let d = doc("a.md", DocKind::Post, "no header at all");
    let err = site.render_document(&d, &post_store()).unwrap_err();
    assert_eq!(err, BuildError::MissingFrontMatter);
}

#[test]
fn post_body_goes_through_markdown() {
    let site = test_site();
    let d = doc("a.md", DocKind::Post, "---\ntitle: T\n---\n# Hi");
    let art = site.render_document(&d, &post_store()).unwrap();
    assert_eq!(art.html, "P[<h1>Hi</h1>\n]");
}

#[test]
fn page_body_is_templated_raw() {
    let site = test_site();
    let store = dict_of(&[("base", "[{{ content }}]")]);
    let d = doc(
        "a.md",
        DocKind::Page,
        "---\ntitle: T\nlayout: base\n---\nHello {{ title }} of {{ site_name }}",
    );
    let art = site.render_document(&d, &store).unwrap();
    assert_eq!(art.html, "[Hello T of blog]");
}

#[test]
fn site_name_is_kebab_cased_for_base_dir() {
    let site = Site::new("My Test Site");
    assert_eq!(site.site_name, "My Test Site");
    assert_eq!(site.base_dir, "my-test-site");
}

#[test]
fn output_tree_is_precreated_under_public() {
    let site = test_site();
    let dirs = site.output_dirs();
    let expected: Vec<String> = [
        "blog/public",
        "blog/public/posts",
        "blog/public/assets",
        "blog/public/assets/img",
        "blog/public/assets/css",
        "blog/public/assets/js",
    ]
    .iter()
    .map(|s| s.to_string())
    .collect();
    assert_eq!(dirs, expected);
}

#[test]
fn post_output_mirrors_nested_relative_path() {
    let site = test_site();
    let d = doc("2024/jan/hello.md", DocKind::Post, "---\ntitle: T\n---\nhey");
    let art = site.render_document(&d, &post_store()).unwrap();
    assert_eq!(art.output_path, "blog/public/posts/2024/jan/hello.html");
}

#[test]
fn page_output_mirrors_under_public_root() {
    let site = test_site();
    let store = dict_of(&[("base", "[{{ content }}]")]);
    let d = doc("docs/about.md", DocKind::Page, "---\ntitle: T\nlayout: base\n---\nhi");
    let art = site.render_document(&d, &store).unwrap();
    assert_eq!(art.output_path, "blog/public/docs/about.html");
}

#[test]
fn non_markdown_name_is_kept_as_is() {
    let site = test_site();
    let d = doc("raw.txt", DocKind::Post, "---\ntitle: T\n---\nhey");
    let art = site.render_document(&d, &post_store()).unwrap();
    assert_eq!(art.output_path, "blog/public/posts/raw.txt");
}

#[test]
fn one_bad_document_does_not_stop_the_build() {
    let site = test_site();
    let docs = vec![
        doc("one.md", DocKind::Post, "---\ntitle: One\n---\nalpha"),
        doc("two.md", DocKind::Post, "---\nbroken"),
        doc("three.md", DocKind::Post, "---\ntitle: Three\n---\ngamma"),
    ];
    let report = site.build(&docs, &post_store());
    assert_eq!(report.results.len(), 3);
    assert_eq!(report.results[0].0, "one.md");
    let first = report.results[0].1.as_ref().unwrap();
    assert_eq!(first.html, "P[<p>alpha</p>\n]");
    assert_eq!(first.output_path, "blog/public/posts/one.html");
    assert_eq!(report.results[1].1, Err(BuildError::MalformedHeader));
    let third = report.results[2].1.as_ref().unwrap();
    assert_eq!(third.html, "P[<p>gamma</p>\n]");
    assert_eq!(third.output_path, "blog/public/posts/three.html");
    assert_eq!(report.success_count(), 2);
}

#[test]
fn rebuilding_unchanged_inputs_gives_identical_report() {
    let site = test_site();
    let docs = vec![
        doc("one.md", DocKind::Post, "---\ntitle: One\n---\nalpha"),
        doc("two.md", DocKind::Post, "---\nbroken"),
    ];
    let first = site.build(&docs, &post_store());
    let second = site.build(&docs, &post_store());
    assert_eq!(first, second);
}

use vstd::prelude::*;
use vstd::seq_lib::*;
use vstd::set_lib::lemma_len_subset;
use crate::dict::Dict;
use crate::dict::entries_map;
use crate::dict::lemma_entries_map_dom;
use crate::errors::BuildError;
use crate::errors::ErrView;
use crate::front_matter;
use crate::front_matter::parse_spec;
use crate::engines;
use crate::engines::markdown_of;

verus! {

/// The two document collections, each with its own rendering policy: a post
/// body goes through markdown conversion, a page body is templated raw.
#[derive(Debug, Clone, Copy, PartialEq, Eq, Structural)]
pub enum DocKind {
    Post,
    Page,
}

/// The mathematical content of a rendered-or-failed string result.
pub open spec fn str_result_view(r: Result<String, BuildError>) -> Result<Seq<char>, ErrView> {
    match r {
        Ok(s) => Ok(s@),
        Err(e) => Err(e@),
    }
}

/// The context a document starts with: its own title and the site's name.
pub open spec fn initial_context(site_name: Seq<char>, title: Seq<char>) -> Map<
    Seq<char>,
    Seq<char>,
> {
    Map::empty().insert("title"@, title).insert("site_name"@, site_name)
}

/// Everything one document's content rendering fixes before the template
/// engine runs: the text handed to the one substitution pass (the markdown
/// rendering of the body for a post, the raw body for a page), the context
/// it is given, and the starting layout name — or the error that stops the
/// document first.  Posts require a `title` key and use the fixed `post`
/// layout; pages require `title` and `layout` and start at their own
/// `layout` value.
pub open spec fn content_plan(kind: DocKind, raw: Seq<char>, site_name: Seq<char>) -> Result<
    (Seq<char>, Map<Seq<char>, Seq<char>>, Seq<char>),
    ErrView,
> {
    match parse_spec(raw) {
        Err(e) => Err(e),
        Ok((None, _)) => Err(ErrView::MissingFrontMatter),
        Ok((Some(es), body)) => {
            let fm = entries_map(es);
            if !fm.contains_key("title"@) {
                Err(ErrView::MissingRequiredField { field: "title"@ })
            } else if kind is Page && !fm.contains_key("layout"@) {
                Err(ErrView::MissingRequiredField { field: "layout"@ })
            } else {
                Ok(
                    (
                        if kind is Post {
                            markdown_of(body)
                        } else {
                            body
                        },
                        initial_context(site_name, fm["title"@]),
                        if kind is Post {
                            "post"@
                        } else {
                            fm["layout"@]
                        },
                    ),
                )
            }
        },
    }
}

/// Renders one document's content: front matter, required fields, markdown
/// for posts, one template pass, and the choice of the starting layout.
///
/// Every failure before the template pass is pinned exactly by
/// `content_plan`.  The engine itself decides the pass: on its success the
/// returned context is the planned one with the produced fragment bound to
/// `content`, on its failure the document fails with the template error.
pub fn render_content(kind: DocKind, raw: &str, site_name: &str) -> (r: Result<
    (Dict, String),
    BuildError,
>)
    ensures
        match content_plan(kind, raw@, site_name@) {
            Err(e) => r is Err && r->Err_0@ == e,
            Ok(plan) => match r {
                Ok((ctx, layout)) => layout@ == plan.2 && (exists|frag: Seq<char>|
                    ctx@ == plan.1.insert("content"@, frag)),
                Err(e) => e@ is Template,
            },
        },
{
    let (fm_opt, body) = match front_matter::parse(raw) {
        Ok(p) => p,
        Err(e) => {
            return Err(e);
        },
    };
    let fm = match fm_opt {
        Some(fm) => fm,
        None => {
            return Err(BuildError::MissingFrontMatter);
        },
    };
    let title = match fm.get("title") {
        Some(t) => t.clone(),
        None => {
            return Err(BuildError::MissingRequiredField { field: "title".to_owned() });
        },
    };
    let layout: String = match kind {
        DocKind::Post => "post".to_owned(),
        DocKind::Page => match fm.get("layout") {
            Some(l) => l.clone(),
            None => {
                return Err(BuildError::MissingRequiredField { field: "layout".to_owned() });
            },
        },
    };
    let mut ctx = Dict::new();
    ctx.insert("title".to_owned(), title);
    ctx.insert("site_name".to_owned(), site_name.to_owned());
    let source = match kind {
        DocKind::Post => engines::markdown_to_html(body.as_str()),
        DocKind::Page => body,
    };
    let frag = match engines::render_template(source.as_str(), &ctx) {
        Ok(s) => s,
        Err(_) => {
            return Err(BuildError::Template);
        },
    };
    let ghost frag_view = frag@;
    ctx.insert("content".to_owned(), frag);
    proof {
        let plan = content_plan(kind, raw@, site_name@)->Ok_0;
        assert(ctx@ == plan.1.insert("content"@, frag_view));
    }
    Ok((ctx, layout))
}

/// Which results the layout walk can return from a store of layout files, a
/// starting layout name, a context, and the names already visited.  Each
/// step looks the name up (absence is an I/O-level failure), refuses a
/// revisit as a cycle, parses the layout's own front matter, and hands the
/// layout's body and the context to one template pass; those failures are
/// pinned exactly.  The pass itself is the engine's: it may fail, which ends
/// the walk with the template error, or produce some fragment; the walk then
/// returns that fragment for a terminal layout, or recurses into the
/// declared parent with `content` rebound to it.
///
/// The walk adds one stored, unvisited name to `visited` per step, so the
/// visited list can never grow past the store; the first branch makes that
/// bound explicit and the recursion well-founded.
pub open spec fn resolve_post(
    store: Seq<(Seq<char>, Seq<char>)>,
    name: Seq<char>,
    ctx: Map<Seq<char>, Seq<char>>,
    visited: Seq<Seq<char>>,
    r: Result<Seq<char>, ErrView>,
) -> bool
    decreases store.len() + 1 - visited.len(),
{
    if visited.len() > store.len() {
        r == Err::<Seq<char>, ErrView>(ErrView::LayoutCycle { chain: visited.push(name) })
    } else if !entries_map(store).contains_key(name) {
        r == Err::<Seq<char>, ErrView>(ErrView::Io { path: name })
    } else if visited.contains(name) {
        r == Err::<Seq<char>, ErrView>(ErrView::LayoutCycle { chain: visited.push(name) })
    } else {
        match parse_spec(entries_map(store)[name]) {
            Err(e) => r == Err::<Seq<char>, ErrView>(e),
            Ok((fm_opt, tmpl)) => r == Err::<Seq<char>, ErrView>(ErrView::Template) || {
                let parent = match fm_opt {
                    Some(es) => if entries_map(es).contains_key("layout"@) {
                        Some(entries_map(es)["layout"@])
                    } else {
                        None
                    },
                    None => None,
                };
                match parent {
                    Some(p) => exists|frag: Seq<char>|
                        resolve_post(store, p, ctx.insert("content"@, frag), visited.push(name), r),
                    None => r is Ok,
                }
            },
        }
    }
}

/// Whatever fragments the engine produces, two walks of the same store from
/// the same start agree on everything the engine does not choose: they fail
/// or succeed together (template failures aside), and a failure is the same
/// failure.  The chain of visited layouts depends only on the store, never
/// on the rendered text, so the contexts of the two walks may differ freely.
pub proof fn lemma_resolve_post_agree(
    store: Seq<(Seq<char>, Seq<char>)>,
    name: Seq<char>,
    ctx1: Map<Seq<char>, Seq<char>>,
    ctx2: Map<Seq<char>, Seq<char>>,
    visited: Seq<Seq<char>>,
    r1: Result<Seq<char>, ErrView>,
    r2: Result<Seq<char>, ErrView>,
)
    requires
        resolve_post(store, name, ctx1, visited, r1),
        resolve_post(store, name, ctx2, visited, r2),
        r1 != Err::<Seq<char>, ErrView>(ErrView::Template),
        r2 != Err::<Seq<char>, ErrView>(ErrView::Template),
    ensures
        r1 is Ok <==> r2 is Ok,
        r1 is Err ==> r1 == r2,
    decreases store.len() + 1 - visited.len(),
{
    if visited.len() > store.len() {
    } else if !entries_map(store).contains_key(name) {
    } else if visited.contains(name) {
    } else {
        match parse_spec(entries_map(store)[name]) {
            Err(_) => {},
            Ok((fm_opt, tmpl)) => {
                let parent = match fm_opt {
                    Some(es) => if entries_map(es).contains_key("layout"@) {
                        Some(entries_map(es)["layout"@])
                    } else {
                        None
                    },
                    None => None,
                };
                match parent {
                    Some(p) => {
                        let f1 = choose|frag: Seq<char>|
                            resolve_post(
                                store,
                                p,
                                ctx1.insert("content"@, frag),
                                visited.push(name),
                                r1,
                            );
                        let f2 = choose|frag: Seq<char>|
                            resolve_post(
                                store,
                                p,
                                ctx2.insert("content"@, frag),
                                visited.push(name),
                                r2,
                            );
                        lemma_resolve_post_agree(
                            store,
                            p,
                            ctx1.insert("content"@, f1),
                            ctx2.insert("content"@, f2),
                            visited.push(name),
                            r1,
                            r2,
                        );
                    },
                    None => {},
                }
            },
        }
    }
}

fn contains_str(v: &Vec<String>, s: &str) -> (b: bool)
    ensures
        b == v.deep_view().contains(s@),
{
    let owned = s.to_owned();
    let n = v.len();
    let mut i: usize = 0;
    while i < n
        invariant
            i <= n,
            n == v.len(),
            owned@ == s@,
            forall|j: int| 0 <= j < i ==> v.deep_view()[j] != s@,
        decreases n - i,
    {
        if v[i] == owned {
            assert(v.deep_view()[i as int] == s@);
            return true;
        }
        i = i + 1;
    }
    assert(!v.deep_view().contains(s@));
    false
}

fn resolve_inner(store: &Dict, name: &str, ctx: &Dict, visited: Vec<String>) -> (r: Result<
    String,
    BuildError,
>)
    requires
        visited.deep_view().no_duplicates(),
        forall|i: int|
            0 <= i < visited.deep_view().len() ==> entries_map(store.entries_view()).contains_key(
                #[trigger] visited.deep_view()[i],
            ),
    ensures
        resolve_post(store.entries_view(), name@, ctx@, visited.deep_view(), str_result_view(r)),
    decreases store.entries_view().len() - visited.deep_view().len(),
{
    proof {
        broadcast use seq_to_set_is_finite;

        visited.deep_view().unique_seq_to_set();
        assert(visited.deep_view().to_set() <= entries_map(store.entries_view()).dom());
        lemma_entries_map_dom(store.entries_view());
        lemma_len_subset(
            visited.deep_view().to_set(),
            entries_map(store.entries_view()).dom(),
        );
        assert(visited.deep_view().len() <= store.entries_view().len());
    }
    let raw = match store.get(name) {
        Some(r) => r.clone(),
        None => {
            return Err(BuildError::Io { path: name.to_owned() });
        },
    };
    if contains_str(&visited, name) {
        let ghost vv = visited.deep_view();
        let mut chain = visited;
        chain.push(name.to_owned());
        proof {
            assert(chain.deep_view() =~= vv.push(name@));
        }
        return Err(BuildError::LayoutCycle { chain });
    }
    let (fm_opt, tmpl) = match front_matter::parse(raw.as_str()) {
        Ok(p) => p,
        Err(e) => {
            return Err(e);
        },
    };
    let rendered = match engines::render_template(tmpl.as_str(), ctx) {
        Ok(s) => s,
        Err(_) => {
            return Err(BuildError::Template);
        },
    };
    let parent: Option<String> = match fm_opt {
        Some(fm) => match fm.get("layout") {
            Some(p) => Some(p.clone()),
            None => None,
        },
        None => None,
    };
    match parent {
        Some(p) => {
            let ghost frag_view = rendered@;
            let mut ctx2 = ctx.duplicate();
            ctx2.insert("content".to_owned(), rendered);
            let ghost old_view = visited.deep_view();
            let mut visited2 = visited;
            visited2.push(name.to_owned());
            proof {
                broadcast use seq_to_set_is_finite;
                broadcast use vstd::set::group_set_axioms;

                assert(visited2.deep_view() =~= old_view.push(name@));
                old_view.unique_seq_to_set();
                let dom = entries_map(store.entries_view()).dom();
                assert(!old_view.to_set().contains(name@));
                assert(dom.contains(name@));
                assert(old_view.to_set().insert(name@) <= dom);
                lemma_entries_map_dom(store.entries_view());
                lemma_len_subset(old_view.to_set().insert(name@), dom);
                assert(old_view.to_set().insert(name@).len() == old_view.len() + 1);
                assert(old_view.len() + 1 <= store.entries_view().len());
            }
            let out = resolve_inner(store, p.as_str(), &ctx2, visited2);
            proof {
                assert(ctx2@ == ctx@.insert("content"@, frag_view));
                assert(resolve_post(
                    store.entries_view(),
                    p@,
                    ctx@.insert("content"@, frag_view),
                    old_view.push(name@),
                    str_result_view(out),
                ));
            }
            out
        },
        None => Ok(rendered),
    }
}

/// Walks the layout chain starting at `name` with context `ctx`, loading
/// each layout from `store`, and returns the fully wrapped output, or the
/// first failure: an unknown layout name, a revisited layout (a cycle), a
/// malformed layout header, or a rejected template pass.
pub fn resolve_layouts(store: &Dict, name: &str, ctx: &Dict) -> (r: Result<String, BuildError>)
    ensures
        resolve_post(store.entries_view(), name@, ctx@, Seq::empty(), str_result_view(r)),
{
    let visited: Vec<String> = Vec::new();
    proof {
        assert(visited.deep_view() =~= Seq::<Seq<char>>::empty());
    }
    resolve_inner(store, name, ctx, visited)
}

} // verus!

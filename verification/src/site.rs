use vstd::prelude::*;
use vstd::string::StrSliceExecFns;
use vstd::string::StringExecFns;
use crate::dict::Dict;
use crate::engines;
use crate::engines::kebab_of;
use crate::errors::BuildError;
use crate::errors::ErrView;
use crate::render;
use crate::render::DocKind;
use crate::render::content_plan;
use crate::render::lemma_resolve_post_agree;
use crate::render::resolve_post;

verus! {

/// One discovered source document: its path relative to its collection's
/// source root, its collection, and its raw text.
#[derive(Debug, Clone, PartialEq, Eq)]
pub struct SourceDoc {
    pub rel_path: String,
    pub kind: DocKind,
    pub text: String,
}

/// One document's finished output: where it goes and what is written there.
#[derive(Debug, Clone, PartialEq, Eq)]
pub struct RenderedArtifact {
    pub output_path: String,
    pub html: String,
}

/// Per-document outcomes of one build, in input order.  A failed document is
/// recorded here and stops nothing else.
#[derive(Debug, Clone, PartialEq, Eq)]
pub struct BuildReport {
    pub results: Vec<(String, Result<RenderedArtifact, BuildError>)>,
}

/// `rel` with a trailing `.md` replaced by `.html`.
pub open spec fn ends_with_md(rel: Seq<char>) -> bool {
    rel.len() >= 3 && rel[rel.len() - 3] == '.' && rel[rel.len() - 2] == 'm' && rel[rel.len()
        - 1] == 'd'
}

pub open spec fn html_name(rel: Seq<char>) -> Seq<char> {
    if ends_with_md(rel) {
        rel.take(rel.len() - 3) + ".html"@
    } else {
        rel
    }
}

/// The output file for a document mirrors its full relative source path:
/// posts under `<base>/public/posts/`, pages directly under `<base>/public/`.
pub open spec fn output_path_spec(base: Seq<char>, kind: DocKind, rel: Seq<char>) -> Seq<char> {
    if kind is Post {
        base + "/public/posts/"@ + html_name(rel)
    } else {
        base + "/public/"@ + html_name(rel)
    }
}

/// The HTML half of a recorded outcome, with the output path dropped.
pub open spec fn artifact_html(r: Result<(Seq<char>, Seq<char>), ErrView>) -> Result<
    Seq<char>,
    ErrView,
> {
    match r {
        Ok(p) => Ok(p.1),
        Err(e) => Err(e),
    }
}

/// Which outcomes one document's full pipeline can record.  Everything the
/// library decides is pinned exactly: each failure before the first template
/// pass comes from `content_plan`, a successful outcome carries the mirrored
/// output path, and the HTML half is a possible result of the layout walk
/// started at the planned layout with the planned context — whose `content`
/// holds whatever fragment the engine produced for the planned template.
pub open spec fn build_doc_post(
    site_name: Seq<char>,
    base: Seq<char>,
    store: Seq<(Seq<char>, Seq<char>)>,
    kind: DocKind,
    rel: Seq<char>,
    text: Seq<char>,
    r: Result<(Seq<char>, Seq<char>), ErrView>,
) -> bool {
    match content_plan(kind, text, site_name) {
        Err(e) => r == Err::<(Seq<char>, Seq<char>), ErrView>(e),
        Ok(plan) => {
            &&& (artifact_html(r) == Err::<Seq<char>, ErrView>(ErrView::Template) || exists|
                frag: Seq<char>,
            |
                resolve_post(
                    store,
                    plan.2,
                    plan.1.insert("content"@, frag),
                    Seq::empty(),
                    artifact_html(r),
                ))
            &&& (r is Ok ==> r->Ok_0.0 == output_path_spec(base, kind, rel))
        },
    }
}

/// The mathematical content of one recorded outcome.
pub open spec fn doc_result_view(r: Result<RenderedArtifact, BuildError>) -> Result<
    (Seq<char>, Seq<char>),
    ErrView,
> {
    match r {
        Ok(a) => Ok((a.output_path@, a.html@)),
        Err(e) => Err(e@),
    }
}

/// The report records, in order, each document's path and an outcome that
/// `build_doc_post` admits for that document alone.
pub open spec fn build_report_matches(
    site_name: Seq<char>,
    base: Seq<char>,
    store: Seq<(Seq<char>, Seq<char>)>,
    docs: Seq<SourceDoc>,
    report: BuildReport,
) -> bool {
    &&& report.results@.len() == docs.len()
    &&& forall|i: int|
        0 <= i < docs.len() ==> (#[trigger] report.results@[i]).0@ == docs[i].rel_path@
            && build_doc_post(
            site_name,
            base,
            store,
            docs[i].kind,
            docs[i].rel_path@,
            docs[i].text@,
            doc_result_view(report.results@[i].1),
        )
}

/// How many documents succeeded in the outcomes `rs`.
pub open spec fn count_ok(rs: Seq<(String, Result<RenderedArtifact, BuildError>)>) -> nat
    decreases rs.len(),
{
    if rs.len() == 0 {
        0
    } else {
        (count_ok(rs.drop_last()) + if rs.last().1 is Ok {
            1nat
        } else {
            0nat
        }) as nat
    }
}

impl BuildReport {
    /// The number of documents that rendered and were assigned an output path.
    pub fn success_count(&self) -> (n: usize)
        ensures
            n == count_ok(self.results@),
    {
        let mut n: usize = 0;
        let mut i: usize = 0;
        while i < self.results.len()
            invariant
                i <= self.results@.len(),
                n == count_ok(self.results@.take(i as int)),
                n <= i,
            decreases self.results@.len() - i,
        {
            if self.results[i].1.is_ok() {
                n = n + 1;
            }
            proof {
                assert(self.results@.take(i + 1).drop_last() =~= self.results@.take(i as int));
                assert(self.results@.take(i + 1).last() == self.results@[i as int]);
            }
            i = i + 1;
        }
        proof {
            assert(self.results@.take(self.results@.len() as int) =~= self.results@);
        }
        n
    }
}

/// Process-scoped configuration: the site's name and its base directory,
/// which is the kebab-cased site name.  The site holds nothing that outlives
/// one build.
pub struct Site {
    pub site_name: String,
    pub base_dir: String,
}

impl Site {
    /// A site named `name`, rooted at the kebab-cased form of the name.
    /// Creating the directories themselves is the caller's business.
    pub fn new(name: &str) -> (s: Site)
        ensures
            s.site_name@ == name@,
            s.base_dir@ == kebab_of(name@),
    {
        Site { site_name: name.to_owned(), base_dir: engines::to_kebab_case(name) }
    }

    /// The output directories that must exist before any artifact is
    /// written; creating them is idempotent and is the caller's one ordering
    /// barrier before writing.
    pub fn output_dirs(&self) -> (dirs: Vec<String>)
        ensures
            dirs.deep_view() =~= seq![
                self.base_dir@ + "/public"@,
                self.base_dir@ + "/public/posts"@,
                self.base_dir@ + "/public/assets"@,
                self.base_dir@ + "/public/assets/img"@,
                self.base_dir@ + "/public/assets/css"@,
                self.base_dir@ + "/public/assets/js"@,
            ],
    {
        let mut dirs: Vec<String> = Vec::new();
        let mut d = self.base_dir.clone();
        d.append("/public");
        dirs.push(d);
        let mut d = self.base_dir.clone();
        d.append("/public/posts");
        dirs.push(d);
        let mut d = self.base_dir.clone();
        d.append("/public/assets");
        dirs.push(d);
        let mut d = self.base_dir.clone();
        d.append("/public/assets/img");
        dirs.push(d);
        let mut d = self.base_dir.clone();
        d.append("/public/assets/css");
        dirs.push(d);
        let mut d = self.base_dir.clone();
        d.append("/public/assets/js");
        dirs.push(d);
        dirs
    }

    /// The mirrored output path for one document.
    pub fn output_path(&self, kind: DocKind, rel: &str) -> (p: String)
        ensures
            p@ == output_path_spec(self.base_dir@, kind, rel@),
    {
        let mut p = self.base_dir.clone();
        match kind {
            DocKind::Post => p.append("/public/posts/"),
            DocKind::Page => p.append("/public/"),
        }
        let name = html_name_exec(rel);
        p.append(name.as_str());
        p
    }

    /// Runs one document through content rendering and the layout walk and
    /// pairs the result with its mirrored output path.
    pub fn render_document(&self, doc: &SourceDoc, layouts: &Dict) -> (r: Result<
        RenderedArtifact,
        BuildError,
    >)
        ensures
            build_doc_post(
                self.site_name@,
                self.base_dir@,
                layouts.entries_view(),
                doc.kind,
                doc.rel_path@,
                doc.text@,
                doc_result_view(r),
            ),
    {
        let ghost plan_r = content_plan(doc.kind, doc.text@, self.site_name@);
        let (ctx, layout) = match render::render_content(
            doc.kind,
            doc.text.as_str(),
            self.site_name.as_str(),
        ) {
            Ok(p) => p,
            Err(e) => {
                return Err(e);
            },
        };
        let ghost plan = plan_r->Ok_0;
        let ghost frag = choose|f: Seq<char>| ctx@ == plan.1.insert("content"@, f);
        let html = match render::resolve_layouts(layouts, layout.as_str(), &ctx) {
            Ok(h) => h,
            Err(e) => {
                proof {
                    assert(resolve_post(
                        layouts.entries_view(),
                        plan.2,
                        plan.1.insert("content"@, frag),
                        Seq::empty(),
                        Err(e@),
                    ));
                }
                return Err(e);
            },
        };
        let output_path = self.output_path(doc.kind, doc.rel_path.as_str());
        let r = RenderedArtifact { output_path, html };
        proof {
            assert(resolve_post(
                layouts.entries_view(),
                plan.2,
                plan.1.insert("content"@, frag),
                Seq::empty(),
                artifact_html(doc_result_view(Ok(r))),
            ));
        }
        Ok(r)
    }

    /// Builds every document against the layout store and records each
    /// outcome; one document's failure never stops the others.
    pub fn build(&self, docs: &Vec<SourceDoc>, layouts: &Dict) -> (report: BuildReport)
        ensures
            build_report_matches(
                self.site_name@,
                self.base_dir@,
                layouts.entries_view(),
                docs@,
                report,
            ),
    {
        let mut results: Vec<(String, Result<RenderedArtifact, BuildError>)> = Vec::new();
        let n = docs.len();
        let mut i: usize = 0;
        while i < n
            invariant
                i <= n,
                n == docs@.len(),
                results@.len() == i,
                forall|j: int|
                    0 <= j < i ==> (#[trigger] results@[j]).0@ == docs@[j].rel_path@
                        && build_doc_post(
                        self.site_name@,
                        self.base_dir@,
                        layouts.entries_view(),
                        docs@[j].kind,
                        docs@[j].rel_path@,
                        docs@[j].text@,
                        doc_result_view(results@[j].1),
                    ),
            decreases n - i,
        {
            let doc = &docs[i];
            let outcome = self.render_document(doc, layouts);
            results.push((doc.rel_path.clone(), outcome));
            i = i + 1;
        }
        BuildReport { results }
    }
}

fn html_name_exec(rel: &str) -> (r: String)
    ensures
        r@ == html_name(rel@),
{
    let n = rel.unicode_len();
    if n >= 3 && rel.get_char(n - 3) == '.' && rel.get_char(n - 2) == 'm' && rel.get_char(n - 1)
        == 'd' {
        let mut out = rel.substring_char(0, n - 3).to_owned();
        out.append(".html");
        proof {
            assert(rel@.subrange(0, n - 3) =~= rel@.take(rel@.len() - 3));
        }
        out
    } else {
        rel.to_owned()
    }
}

/// Rebuilding on unchanged inputs reproduces the report in everything the
/// template engine does not choose: the same documents in the same order,
/// and, wherever neither run was stopped by a rejected template pass, the
/// two runs fail or succeed together, fail identically, and write to the
/// same output path.  The rendered bytes themselves are the engine's, which
/// this crate does not model as a function of its input.
pub proof fn lemma_rebuild_reports_agree(
    site_name: Seq<char>,
    base: Seq<char>,
    store: Seq<(Seq<char>, Seq<char>)>,
    docs: Seq<SourceDoc>,
    rep1: BuildReport,
    rep2: BuildReport,
)
    requires
        build_report_matches(site_name, base, store, docs, rep1),
        build_report_matches(site_name, base, store, docs, rep2),
    ensures
        rep1.results@.len() == rep2.results@.len(),
        forall|i: int|
            0 <= i < docs.len() ==> (#[trigger] rep1.results@[i]).0@ == rep2.results@[i].0@,
        forall|i: int|
            0 <= i < docs.len() && doc_result_view((#[trigger] rep1.results@[i]).1) != Err::<
                (Seq<char>, Seq<char>),
                ErrView,
            >(ErrView::Template) && doc_result_view(rep2.results@[i].1) != Err::<
                (Seq<char>, Seq<char>),
                ErrView,
            >(ErrView::Template) ==> ({
                let o1 = doc_result_view(rep1.results@[i].1);
                let o2 = doc_result_view(rep2.results@[i].1);
                &&& (o1 is Ok <==> o2 is Ok)
                &&& (o1 is Err ==> o1 == o2)
                &&& (o1 is Ok ==> o1->Ok_0.0 == o2->Ok_0.0)
            }),
{
    assert forall|i: int|
        0 <= i < docs.len() && doc_result_view((#[trigger] rep1.results@[i]).1) != Err::<
            (Seq<char>, Seq<char>),
            ErrView,
        >(ErrView::Template) && doc_result_view(rep2.results@[i].1) != Err::<
            (Seq<char>, Seq<char>),
            ErrView,
        >(ErrView::Template) implies ({
        let o1 = doc_result_view(rep1.results@[i].1);
        let o2 = doc_result_view(rep2.results@[i].1);
        &&& (o1 is Ok <==> o2 is Ok)
        &&& (o1 is Err ==> o1 == o2)
        &&& (o1 is Ok ==> o1->Ok_0.0 == o2->Ok_0.0)
    }) by {
        let o1 = doc_result_view(rep1.results@[i].1);
        let o2 = doc_result_view(rep2.results@[i].1);
        match content_plan(docs[i].kind, docs[i].text@, site_name) {
            Err(_) => {},
            Ok(plan) => {
                let f1 = choose|frag: Seq<char>|
                    resolve_post(
                        store,
                        plan.2,
                        plan.1.insert("content"@, frag),
                        Seq::empty(),
                        artifact_html(o1),
                    );
                let f2 = choose|frag: Seq<char>|
                    resolve_post(
                        store,
                        plan.2,
                        plan.1.insert("content"@, frag),
                        Seq::empty(),
                        artifact_html(o2),
                    );
                lemma_resolve_post_agree(
                    store,
                    plan.2,
                    plan.1.insert("content"@, f1),
                    plan.1.insert("content"@, f2),
                    Seq::empty(),
                    artifact_html(o1),
                    artifact_html(o2),
                );
            },
        }
    }
}

} // verus!

//! Discovery of page URLs from a root sitemap. The caller performs each fetch
//! this machine asks for and feeds the outcome back; an index's children are
//! fetched one level deep, and a child that fails is skipped.

use vstd::prelude::*;
use crate::text::views;
use crate::xml::{decode_sitemap, decode_url_set, sitemap_of, url_set_of, ParseError, Sitemap};

verus! {

/// Why fetching a sitemap failed.
#[derive(Clone, Debug, PartialEq, Eq)]
pub enum HttpError {
    /// The response's status was not in the 2xx range.
    Status(u16),
    /// No response was received: connection, timeout or body errors.
    Transport(String),
}

/// Accepts the response status of a sitemap fetch where it is in the 2xx range.
pub fn check_status(status: u16) -> (r: Result<(), HttpError>)
    ensures
        r is Ok <==> 200 <= status <= 299,
        r is Err ==> r == Err::<(), HttpError>(HttpError::Status(status)),
{
    if 200 <= status && status <= 299 {
        Ok(())
    } else {
        Err(HttpError::Status(status))
    }
}

/// Why a sitemap yielded no locations.
#[derive(Clone, Debug, PartialEq, Eq)]
pub enum DiscoveryError {
    Fetch(HttpError),
    Parse(ParseError),
}

fn copy_error(e: &DiscoveryError) -> (r: DiscoveryError)
    ensures
        r == *e,
{
    match e {
        DiscoveryError::Fetch(HttpError::Status(c)) => DiscoveryError::Fetch(HttpError::Status(*c)),
        DiscoveryError::Fetch(HttpError::Transport(m)) => DiscoveryError::Fetch(HttpError::Transport(m.clone())),
        DiscoveryError::Parse(p) => DiscoveryError::Parse(*p),
    }
}

/// Where discovery stands.
#[derive(Clone, Debug, PartialEq, Eq)]
pub enum Stage {
    /// The root sitemap is to be fetched.
    AwaitingRoot,
    /// The child sitemap at `next_child` is to be fetched.
    AwaitingChild,
    /// All page locations are known.
    Finished,
    /// The root sitemap could not be fetched or decoded.
    Failed(DiscoveryError),
}

/// What the caller is to do next.
#[derive(Clone, Debug)]
pub enum Step {
    /// Fetch this sitemap and feed back the outcome.
    Fetch(String),
    /// Discovery is over; these are the pages, in document order.
    Done(Vec<String>),
    /// The root sitemap failed; there is nothing to fetch.
    Fail(DiscoveryError),
}

/// Discovery in progress.
pub struct Discovery {
    pub root: String,
    pub stage: Stage,
    /// The child sitemaps of an index root.
    pub children: Vec<String>,
    /// The number of children fed back so far.
    pub next_child: usize,
    /// The page locations found so far.
    pub pages: Vec<String>,
}

/// A [`Discovery`] as plain values.
pub struct DiscoveryModel {
    pub root: Seq<char>,
    pub stage: Stage,
    pub children: Seq<Seq<char>>,
    pub next_child: nat,
    pub pages: Seq<Seq<char>>,
}

impl View for Discovery {
    type V = DiscoveryModel;

    open spec fn view(&self) -> DiscoveryModel {
        DiscoveryModel {
            root: self.root@,
            stage: self.stage,
            children: views(self.children@),
            next_child: self.next_child as nat,
            pages: views(self.pages@),
        }
    }
}

impl DiscoveryModel {
    pub open spec fn wf(&self) -> bool {
        self.stage is AwaitingChild ==> self.next_child < self.children.len()
    }
}

/// Discovery before anything is fetched.
pub open spec fn initial(root: Seq<char>) -> DiscoveryModel {
    DiscoveryModel {
        root,
        stage: Stage::AwaitingRoot,
        children: seq![],
        next_child: 0,
        pages: seq![],
    }
}

/// The pages that a child sitemap contributes: its locations where it was
/// fetched and decodes as a url-set, none otherwise.
pub open spec fn child_pages(outcome: Result<String, HttpError>) -> Seq<Seq<char>> {
    match outcome {
        Ok(body) => match url_set_of(body@) {
            Ok(l) => l,
            Err(_) => seq![],
        },
        Err(_) => seq![],
    }
}

/// Why a child sitemap contributes no pages, if it failed.
pub open spec fn child_error(outcome: Result<String, HttpError>) -> Option<DiscoveryError> {
    match outcome {
        Ok(body) => match url_set_of(body@) {
            Ok(_) => None,
            Err(e) => Some(DiscoveryError::Parse(e)),
        },
        Err(e) => Some(DiscoveryError::Fetch(e)),
    }
}

/// The sitemap to fetch next, if any.
pub open spec fn pending_url(m: DiscoveryModel) -> Option<Seq<char>> {
    match m.stage {
        Stage::AwaitingRoot => Some(m.root),
        Stage::AwaitingChild => Some(m.children[m.next_child as int]),
        _ => None,
    }
}

/// Discovery after the outcome of the pending fetch. The root decodes as an
/// index or as a url-set; each child adds its pages after those before it.
pub open spec fn after_fetch(m: DiscoveryModel, outcome: Result<String, HttpError>) -> DiscoveryModel {
    match m.stage {
        Stage::AwaitingRoot => match outcome {
            Err(e) => DiscoveryModel { stage: Stage::Failed(DiscoveryError::Fetch(e)), ..m },
            Ok(body) => match sitemap_of(body@) {
                Ok((true, c)) => DiscoveryModel {
                    stage: if c.len() == 0 { Stage::Finished } else { Stage::AwaitingChild },
                    children: c,
                    next_child: 0,
                    pages: seq![],
                    ..m
                },
                Ok((false, l)) => DiscoveryModel { stage: Stage::Finished, pages: l, ..m },
                Err(e) => DiscoveryModel { stage: Stage::Failed(DiscoveryError::Parse(e)), ..m },
            },
        },
        Stage::AwaitingChild => DiscoveryModel {
            stage: if m.next_child + 1 >= m.children.len() { Stage::Finished } else { Stage::AwaitingChild },
            next_child: m.next_child + 1,
            pages: m.pages + child_pages(outcome),
            ..m
        },
        _ => m,
    }
}

/// Discovery after the outcomes of several fetches, in order.
pub open spec fn after_fetches(m: DiscoveryModel, outcomes: Seq<Result<String, HttpError>>) -> DiscoveryModel
    decreases outcomes.len(),
{
    if outcomes.len() == 0 {
        m
    } else {
        after_fetches(after_fetch(m, outcomes[0]), outcomes.drop_first())
    }
}

/// The pages of several children, one after another.
pub open spec fn all_child_pages(outcomes: Seq<Result<String, HttpError>>) -> Seq<Seq<char>>
    decreases outcomes.len(),
{
    if outcomes.len() == 0 {
        seq![]
    } else {
        child_pages(outcomes[0]) + all_child_pages(outcomes.drop_first())
    }
}

fn child_pages_of(outcome: Result<String, HttpError>) -> (r: (Vec<String>, Option<DiscoveryError>))
    ensures
        views(r.0@) == child_pages(outcome),
        r.1 == child_error(outcome),
{
    match outcome {
        Ok(body) => match decode_url_set(body.as_str()) {
            Ok(v) => (v, None),
            Err(e) => {
                let none: Vec<String> = Vec::new();
                assert(views(none@) =~= Seq::<Seq<char>>::empty());
                (none, Some(DiscoveryError::Parse(e)))
            },
        },
        Err(e) => {
            let none: Vec<String> = Vec::new();
            assert(views(none@) =~= Seq::<Seq<char>>::empty());
            (none, Some(DiscoveryError::Fetch(e)))
        },
    }
}

impl Discovery {
    /// Discovery from the sitemap at `root`.
    pub fn new(root: String) -> (r: Discovery)
        ensures
            r@ == initial(root@),
    {
        let r = Discovery { root, stage: Stage::AwaitingRoot, children: Vec::new(), next_child: 0, pages: Vec::new() };
        assert(r@.children =~= Seq::<Seq<char>>::empty());
        assert(r@.pages =~= Seq::<Seq<char>>::empty());
        r
    }

    /// What to do next: fetch the pending sitemap, or take the outcome.
    pub fn next_step(&self) -> (r: Step)
        requires
            self@.wf(),
        ensures
            r is Fetch <==> pending_url(self@) is Some,
            match r {
                Step::Fetch(u) => pending_url(self@) == Some(u@),
                Step::Done(p) => self@.stage is Finished && views(p@) == self@.pages,
                Step::Fail(e) => self@.stage == Stage::Failed(e),
            },
    {
        match &self.stage {
            Stage::AwaitingRoot => Step::Fetch(self.root.clone()),
            Stage::AwaitingChild => {
                assert(views(self.children@)[self.next_child as int] == self.children@[self.next_child as int]@);
                Step::Fetch(self.children[self.next_child].clone())
            },
            Stage::Finished => {
                let p = self.pages.clone();
                assert(views(p@) =~= views(self.pages@));
                Step::Done(p)
            },
            Stage::Failed(e) => Step::Fail(copy_error(e)),
        }
    }

    /// Takes the outcome of the pending fetch. Returns why a child sitemap
    /// contributed nothing, where it failed; a failed root shows in the stage.
    pub fn feed(&mut self, outcome: Result<String, HttpError>) -> (skipped: Option<DiscoveryError>)
        requires
            old(self)@.wf(),
            pending_url(old(self)@) is Some,
        ensures
            final(self)@.wf(),
            final(self)@ == after_fetch(old(self)@, outcome),
            skipped == if old(self)@.stage is AwaitingChild { child_error(outcome) } else { None },
    {
        let awaiting_root = match self.stage {
            Stage::AwaitingRoot => true,
            _ => false,
        };
        if awaiting_root {
            match outcome {
                Err(e) => {
                    self.stage = Stage::Failed(DiscoveryError::Fetch(e));
                },
                Ok(body) => match decode_sitemap(body.as_str()) {
                    Ok(Sitemap::Index(c)) => {
                        self.stage = if c.len() == 0 { Stage::Finished } else { Stage::AwaitingChild };
                        self.children = c;
                        self.next_child = 0;
                        self.pages = Vec::new();
                        assert(views(self.pages@) =~= Seq::<Seq<char>>::empty());
                    },
                    Ok(Sitemap::UrlSet(l)) => {
                        self.stage = Stage::Finished;
                        self.pages = l;
                    },
                    Err(e) => {
                        self.stage = Stage::Failed(DiscoveryError::Parse(e));
                    },
                },
            }
            None
        } else {
            assert(self.stage is AwaitingChild);
            assert(views(self.children@).len() == self.children@.len());
            assert(old(self)@.next_child < old(self)@.children.len());
            assert(self.next_child < self.children.len());
            let ghost before = self.pages@;
            let (mut found, skipped) = child_pages_of(outcome);
            let ghost added = found@;
            self.pages.append(&mut found);
            assert(views(self.pages@) =~= views(before) + views(added));
            self.next_child = self.next_child + 1;
            if self.next_child >= self.children.len() {
                self.stage = Stage::Finished;
            }
            skipped
        }
    }
}

proof fn lemma_children_run(m: DiscoveryModel, outcomes: Seq<Result<String, HttpError>>)
    requires
        m.wf(),
        m.stage is AwaitingChild,
        m.next_child + outcomes.len() == m.children.len(),
    ensures
        after_fetches(m, outcomes).stage is Finished,
        after_fetches(m, outcomes).pages == m.pages + all_child_pages(outcomes),
        forall|i: int| 0 <= i < outcomes.len() ==>
            #[trigger] pending_url(after_fetches(m, outcomes.take(i))) == Some(m.children[m.next_child + i]),
    decreases outcomes.len(),
{
    let n = after_fetch(m, outcomes[0]);
    let rest = outcomes.drop_first();
    assert(after_fetches(m, outcomes.take(0)) == m) by {
        assert(outcomes.take(0).len() == 0);
    }
    if rest.len() == 0 {
        assert(all_child_pages(rest) =~= Seq::<Seq<char>>::empty());
        assert(after_fetches(n, rest) == n);
        assert(all_child_pages(outcomes) == child_pages(outcomes[0]) + all_child_pages(rest));
        assert(n.pages =~= m.pages + all_child_pages(outcomes));
    } else {
        lemma_children_run(n, rest);
        assert(all_child_pages(outcomes) == child_pages(outcomes[0]) + all_child_pages(rest));
        assert(n.pages + all_child_pages(rest) =~= m.pages + all_child_pages(outcomes));
        assert forall|i: int| 0 <= i < outcomes.len() implies
            #[trigger] pending_url(after_fetches(m, outcomes.take(i))) == Some(m.children[m.next_child + i]) by {
            if i > 0 {
                assert(outcomes.take(i).drop_first() =~= rest.take(i - 1));
                assert(outcomes.take(i)[0] == outcomes[0]);
                assert(pending_url(after_fetches(n, rest.take(i - 1))) == Some(n.children[n.next_child + i - 1]));
            }
        }
    }
}

/// An index root with K child sitemaps leads to exactly K child fetches, one
/// for each child in document order, after which discovery is finished with
/// the concatenation of what each child yielded; a child that failed yields
/// no pages and leaves the others' pages and their order as they are.
pub proof fn lemma_index_discovery(
    root: Seq<char>,
    body: String,
    outcomes: Seq<Result<String, HttpError>>,
)
    requires
        sitemap_of(body@) matches Ok((true, c)) && outcomes.len() == c.len(),
    ensures
        ({
            let m = after_fetch(initial(root), Ok(body));
            let c = m.children;
            &&& sitemap_of(body@) == Ok::<(bool, Seq<Seq<char>>), ParseError>((true, c))
            &&& forall|i: int| 0 <= i < outcomes.len() ==>
                #[trigger] pending_url(after_fetches(m, outcomes.take(i))) == Some(c[i])
            &&& pending_url(after_fetches(m, outcomes)) is None
            &&& after_fetches(m, outcomes).stage is Finished
            &&& after_fetches(m, outcomes).pages == all_child_pages(outcomes)
        }),
{
    let m = after_fetch(initial(root), Ok(body));
    if outcomes.len() == 0 {
        assert(all_child_pages(outcomes) =~= Seq::<Seq<char>>::empty());
    } else {
        lemma_children_run(m, outcomes);
        assert(m.pages + all_child_pages(outcomes) =~= all_child_pages(outcomes));
    }
}

/// A root that is a url-set finishes discovery at once with exactly its `loc`
/// values, in document order and with repeats kept.
pub proof fn lemma_url_set_discovery(root: Seq<char>, body: String)
    requires
        sitemap_of(body@) matches Ok((false, l)),
    ensures
        ({
            let m = after_fetch(initial(root), Ok(body));
            &&& m.stage is Finished
            &&& pending_url(m) is None
            &&& sitemap_of(body@) == Ok::<(bool, Seq<Seq<char>>), ParseError>((false, m.pages))
        }),
{
}

proof fn lemma_all_child_pages_concat(a: Seq<Result<String, HttpError>>, b: Seq<Result<String, HttpError>>)
    ensures
        all_child_pages(a + b) == all_child_pages(a) + all_child_pages(b),
    decreases a.len(),
{
    if a.len() == 0 {
        assert(a + b =~= b);
        assert(all_child_pages(a) + all_child_pages(b) =~= all_child_pages(b));
    } else {
        assert((a + b).drop_first() =~= a.drop_first() + b);
        assert((a + b)[0] == a[0]);
        lemma_all_child_pages_concat(a.drop_first(), b);
        assert(all_child_pages(a + b) =~= all_child_pages(a) + all_child_pages(b));
    }
}

/// Where every child sitemap fails, discovery of an index yields no pages
/// (and, by `lemma_index_discovery`, still finishes rather than fails).
pub proof fn lemma_all_children_fail(outcomes: Seq<Result<String, HttpError>>)
    requires
        forall|i: int| 0 <= i < outcomes.len() ==> #[trigger] child_error(outcomes[i]) is Some,
    ensures
        all_child_pages(outcomes) == Seq::<Seq<char>>::empty(),
    decreases outcomes.len(),
{
    if outcomes.len() > 0 {
        let rest = outcomes.drop_first();
        assert(child_error(outcomes[0]) is Some);
        assert forall|i: int| 0 <= i < rest.len() implies #[trigger] child_error(rest[i]) is Some by {
            assert(rest[i] == outcomes[i + 1]);
        }
        lemma_all_children_fail(rest);
        assert(all_child_pages(outcomes) =~= Seq::<Seq<char>>::empty());
    }
}

/// A child's pages form one block between those of the children before and
/// after it; where that child fails instead, exactly that block is gone.
pub proof fn lemma_failed_child_block(outcomes: Seq<Result<String, HttpError>>, j: int, failed: Result<String, HttpError>)
    requires
        0 <= j < outcomes.len(),
        child_error(failed) is Some,
    ensures
        all_child_pages(outcomes) == all_child_pages(outcomes.take(j)) + child_pages(outcomes[j])
            + all_child_pages(outcomes.skip(j + 1)),
        all_child_pages(outcomes.update(j, failed)) == all_child_pages(outcomes.take(j))
            + all_child_pages(outcomes.skip(j + 1)),
{
    let one = seq![outcomes[j]];
    let none = seq![failed];
    assert(outcomes =~= outcomes.take(j) + (one + outcomes.skip(j + 1)));
    assert(outcomes.update(j, failed) =~= outcomes.take(j) + (none + outcomes.skip(j + 1)));
    lemma_all_child_pages_concat(outcomes.take(j), one + outcomes.skip(j + 1));
    lemma_all_child_pages_concat(one, outcomes.skip(j + 1));
    lemma_all_child_pages_concat(outcomes.take(j), none + outcomes.skip(j + 1));
    lemma_all_child_pages_concat(none, outcomes.skip(j + 1));
    assert(one.drop_first() =~= Seq::<Result<String, HttpError>>::empty());
    assert(none.drop_first() =~= Seq::<Result<String, HttpError>>::empty());
    assert(all_child_pages(one.drop_first()) == Seq::<Seq<char>>::empty());
    assert(all_child_pages(none.drop_first()) == Seq::<Seq<char>>::empty());
    assert(all_child_pages(one) == child_pages(one[0]) + all_child_pages(one.drop_first()));
    assert(all_child_pages(none) == child_pages(none[0]) + all_child_pages(none.drop_first()));
    assert(all_child_pages(one) =~= child_pages(outcomes[j]));
    assert(all_child_pages(none) =~= Seq::<Seq<char>>::empty());
    assert(all_child_pages(outcomes) =~= all_child_pages(outcomes.take(j)) + child_pages(outcomes[j])
        + all_child_pages(outcomes.skip(j + 1)));
    assert(all_child_pages(outcomes.update(j, failed)) =~= all_child_pages(outcomes.take(j))
        + all_child_pages(outcomes.skip(j + 1)));
}

} // verus!

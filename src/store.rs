//! The article cache: rendered articles keyed by slug, with the freshness
//! decisions that keep them in step with their source files.

use vstd::prelude::*;
use crate::doc::same_text;

verus! {

/// A rendered article. Times are nanoseconds since the Unix epoch.
#[derive(Clone, Debug, PartialEq, Eq)]
pub struct Article {
    pub slug: String,
    pub title: String,
    pub content: String,
    pub source_path: String,
    pub last_modified: u64,
    pub created_at: u64,
}

pub struct ArticleView {
    pub slug: Seq<char>,
    pub title: Seq<char>,
    pub content: Seq<char>,
    pub source_path: Seq<char>,
    pub last_modified: u64,
    pub created_at: u64,
}

impl View for Article {
    type V = ArticleView;

    open spec fn view(&self) -> ArticleView {
        ArticleView {
            slug: self.slug@,
            title: self.title@,
            content: self.content@,
            source_path: self.source_path@,
            last_modified: self.last_modified,
            created_at: self.created_at,
        }
    }
}

/// All articles known to the process, at most one per slug.
pub struct ArticleStore {
    pub entries: Vec<Article>,
}

pub open spec fn entries_view(e: Seq<Article>) -> Seq<ArticleView> {
    e.map_values(|a: Article| a@)
}

/// The article stored under `slug`.
pub open spec fn lookup(s: Seq<ArticleView>, slug: Seq<char>) -> Option<ArticleView>
    decreases s.len(),
{
    if s.len() == 0 {
        None
    } else if s[0].slug == slug {
        Some(s[0])
    } else {
        lookup(s.drop_first(), slug)
    }
}

/// No two articles share a slug.
pub open spec fn unique_slugs(s: Seq<ArticleView>) -> bool {
    forall|i: int, j: int| 0 <= i < j < s.len() ==> #[trigger] s[i].slug != #[trigger] s[j].slug
}

/// The article with its title, content and modification time replaced as one.
pub open spec fn refreshed(a: ArticleView, title: Seq<char>, content: Seq<char>, modified: u64) -> ArticleView {
    ArticleView { title, content, last_modified: modified, ..a }
}

impl View for ArticleStore {
    type V = Seq<ArticleView>;

    open spec fn view(&self) -> Seq<ArticleView> {
        entries_view(self.entries@)
    }
}

proof fn lemma_lookup_index(s: Seq<ArticleView>, slug: Seq<char>)
    requires
        unique_slugs(s),
    ensures
        match lookup(s, slug) {
            Some(a) => exists|i: int| 0 <= i < s.len() && s[i] == a && #[trigger] s[i].slug == slug,
            None => forall|i: int| 0 <= i < s.len() ==> #[trigger] s[i].slug != slug,
        },
        forall|i: int| 0 <= i < s.len() && #[trigger] s[i].slug == slug ==> lookup(s, slug) == Some(s[i]),
    decreases s.len(),
{
    if s.len() > 0 {
        let t = s.drop_first();
        assert(unique_slugs(t)) by {
            assert forall|i: int, j: int| 0 <= i < j < t.len() implies #[trigger] t[i].slug != #[trigger] t[j].slug by {
                assert(t[i] == s[i + 1] && t[j] == s[j + 1]);
            }
        }
        lemma_lookup_index(t, slug);
        if s[0].slug != slug {
            match lookup(t, slug) {
                Some(a) => {
                    let i = choose|i: int| 0 <= i < t.len() && t[i] == a && #[trigger] t[i].slug == slug;
                    assert(s[i + 1].slug == slug);
                },
                None => {
                    assert forall|i: int| 0 <= i < s.len() implies #[trigger] s[i].slug != slug by {
                        if i > 0 {
                            assert(s[i] == t[i - 1]);
                        }
                    }
                },
            }
            assert forall|i: int| 0 <= i < s.len() && #[trigger] s[i].slug == slug implies lookup(s, slug) == Some(s[i]) by {
                assert(i > 0);
                assert(s[i] == t[i - 1]);
            }
        } else {
            assert forall|i: int| 0 <= i < s.len() && #[trigger] s[i].slug == slug implies lookup(s, slug) == Some(s[i]) by {
                if i > 0 {
                    assert(s[0].slug == s[i].slug);
                }
            }
        }
    }
}

/// A source file whose modification time is later than the stored one is stale.
pub open spec fn is_stale_spec(stored: u64, current: u64) -> bool {
    current > stored
}

fn copy_article(a: &Article) -> (r: Article)
    ensures
        r@ == a@,
{
    Article {
        slug: a.slug.clone(),
        title: a.title.clone(),
        content: a.content.clone(),
        source_path: a.source_path.clone(),
        last_modified: a.last_modified,
        created_at: a.created_at,
    }
}

impl ArticleStore {
    /// The store holds at most one article per slug.
    pub open spec fn wf(&self) -> bool {
        unique_slugs(self@)
    }

    /// An empty store.
    pub fn new() -> (r: ArticleStore)
        ensures
            r@ == Seq::<ArticleView>::empty(),
            r.wf(),
    {
        let r = ArticleStore { entries: Vec::new() };
        proof {
            assert(r@ =~= Seq::<ArticleView>::empty());
        }
        r
    }

    fn position(&self, slug: &str) -> (r: Option<usize>)
        requires
            self.wf(),
        ensures
            match r {
                Some(i) => i < self@.len() && self@[i as int].slug == slug@ && lookup(self@, slug@) == Some(self@[i as int]),
                None => lookup(self@, slug@) is None && forall|i: int| 0 <= i < self@.len() ==> #[trigger] self@[i].slug != slug@,
            },
    {
        proof {
            lemma_lookup_index(self@, slug@);
        }
        let mut i: usize = 0;
        while i < self.entries.len()
            invariant
                self.wf(),
                i <= self.entries.len(),
                self@.len() == self.entries@.len(),
                forall|k: int| 0 <= k < i ==> #[trigger] self@[k].slug != slug@,
                match lookup(self@, slug@) {
                    Some(a) => exists|k: int| 0 <= k < self@.len() && self@[k] == a && #[trigger] self@[k].slug == slug@,
                    None => forall|k: int| 0 <= k < self@.len() ==> #[trigger] self@[k].slug != slug@,
                },
                forall|k: int| 0 <= k < self@.len() && #[trigger] self@[k].slug == slug@ ==> lookup(self@, slug@) == Some(self@[k]),
            decreases self.entries.len() - i,
        {
            assert(self@[i as int] == self.entries@[i as int]@);
            if same_text(self.entries[i].slug.as_str(), slug) {
                assert(self@[i as int].slug == slug@);
                assert(lookup(self@, slug@) == Some(self@[i as int]));
                return Some(i);
            }
            i = i + 1;
        }
        proof {
            if lookup(self@, slug@) is Some {
                let a = lookup(self@, slug@)->0;
                let k = choose|k: int| 0 <= k < self@.len() && self@[k] == a && #[trigger] self@[k].slug == slug@;
                assert(self@[k].slug != slug@);
            }
        }
        None
    }

    /// The article stored under `slug`, or `None` for an unknown slug.
    pub fn get(&self, slug: &str) -> (r: Option<&Article>)
        requires
            self.wf(),
        ensures
            match r {
                Some(a) => lookup(self@, slug@) == Some(a@),
                None => lookup(self@, slug@) is None,
            },
    {
        match self.position(slug) {
            Some(i) => Some(&self.entries[i]),
            None => None,
        }
    }

    /// Whether a source file modified at `current` makes the stored article
    /// stale: true exactly when the slug is known and `current` is later than
    /// its stored modification time.
    pub fn is_stale(&self, slug: &str, current: u64) -> (r: bool)
        requires
            self.wf(),
        ensures
            r == (match lookup(self@, slug@) {
                Some(a) => is_stale_spec(a.last_modified, current),
                None => false,
            }),
    {
        match self.position(slug) {
            Some(i) => current > self.entries[i].last_modified,
            None => false,
        }
    }

    /// Adds an article, or replaces the one stored under its slug.
    pub fn insert(&mut self, article: Article)
        requires
            old(self).wf(),
        ensures
            final(self).wf(),
            lookup(final(self)@, article.slug@) == Some(article@),
            forall|k: Seq<char>| k != article.slug@ ==> lookup(#[trigger] final(self)@, k) == lookup(old(self)@, k),
    {
        let ghost a = article@;
        match self.position(article.slug.as_str()) {
            Some(i) => {
                self.entries.set(i, article);
                proof {
                    assert(self@ =~= old(self)@.update(i as int, a));
                    assert forall|x: int, y: int| 0 <= x < y < self@.len() implies #[trigger] self@[x].slug != #[trigger] self@[y].slug by {
                        assert(old(self)@[x].slug == self@[x].slug || x == i);
                        assert(old(self)@[y].slug == self@[y].slug || y == i);
                    }
                    lemma_lookup_index(self@, a.slug);
                    assert(self@[i as int].slug == a.slug);
                    assert forall|k: Seq<char>| k != a.slug implies lookup(#[trigger] self@, k) == lookup(old(self)@, k) by {
                        lemma_lookup_index(self@, k);
                        lemma_lookup_index(old(self)@, k);
                        match lookup(self@, k) {
                            Some(b) => {
                                let j = choose|j: int| 0 <= j < self@.len() && self@[j] == b && #[trigger] self@[j].slug == k;
                                assert(old(self)@[j].slug == k);
                            },
                            None => {
                                assert forall|j: int| 0 <= j < old(self)@.len() implies #[trigger] old(self)@[j].slug != k by {
                                    if j != i {
                                        assert(self@[j].slug != k);
                                    }
                                }
                            },
                        }
                    }
                }
            },
            None => {
                self.entries.push(article);
                proof {
                    assert(self@ =~= old(self)@.push(a));
                    lemma_lookup_index(self@, a.slug);
                    assert(self@[self@.len() - 1].slug == a.slug);
                    assert forall|k: Seq<char>| k != a.slug implies lookup(#[trigger] self@, k) == lookup(old(self)@, k) by {
                        lemma_lookup_index(self@, k);
                        lemma_lookup_index(old(self)@, k);
                        match lookup(old(self)@, k) {
                            Some(b) => {
                                let j = choose|j: int| 0 <= j < old(self)@.len() && old(self)@[j] == b && #[trigger] old(self)@[j].slug == k;
                                assert(self@[j].slug == k);
                            },
                            None => {
                                assert forall|j: int| 0 <= j < self@.len() implies #[trigger] self@[j].slug != k by {
                                    if j < old(self)@.len() {
                                        assert(self@[j] == old(self)@[j]);
                                    }
                                }
                            },
                        }
                    }
                }
            },
        }
    }

    /// Replaces, as one unit, the title, content and modification time of
    /// the article under `slug` when a source modified at `modified` makes it
    /// stale; otherwise changes nothing.
    pub fn apply_refresh(&mut self, slug: &str, modified: u64, title: String, content: String)
        requires
            old(self).wf(),
        ensures
            final(self).wf(),
            refresh_step(old(self)@, final(self)@, slug@, modified, title@, content@),
    {
        match self.position(slug) {
            Some(i) => {
                if modified > self.entries[i].last_modified {
                    let old_article = copy_article(&self.entries[i]);
                    let article = Article {
                        slug: old_article.slug,
                        title,
                        content,
                        source_path: old_article.source_path,
                        last_modified: modified,
                        created_at: old_article.created_at,
                    };
                    proof {
                        assert(article@ == refreshed(old(self)@[i as int], title@, content@, modified));
                    }
                    self.insert(article);
                }
            },
            None => {},
        }
        proof {
            assert forall|k: Seq<char>| k != slug@ implies lookup(#[trigger] self@, k) == lookup(old(self)@, k) by {}
        }
    }

    /// Drops the articles whose slug is not in `present` (their source file
    /// is gone), keeping the order of the others.
    pub fn remove_missing(&mut self, present: &Vec<String>)
        requires
            old(self).wf(),
        ensures
            final(self).wf(),
            final(self)@ == keep_present(old(self)@, strings_of(present@)),
            forall|k: Seq<char>| #[trigger] lookup(final(self)@, k) == if strings_of(present@).contains(k) {
                lookup(old(self)@, k)
            } else {
                None
            },
    {
        let ghost pv = strings_of(present@);
        let ghost sv = old(self)@;
        let mut kept: Vec<Article> = Vec::new();
        let mut i: usize = 0;
        proof {
            assert(sv.take(0) =~= Seq::<ArticleView>::empty());
            assert(entries_view(kept@) =~= Seq::<ArticleView>::empty());
        }
        while i < self.entries.len()
            invariant
                pv == strings_of(present@),
                sv == self@,
                sv.len() == self.entries@.len(),
                i <= self.entries.len(),
                entries_view(kept@) == keep_present(sv.take(i as int), pv),
            decreases self.entries.len() - i,
        {
            let found = contains_string(present, self.entries[i].slug.as_str());
            proof {
                assert(sv[i as int] == self.entries@[i as int]@);
                assert(sv.take(i + 1) =~= sv.take(i as int).push(sv[i as int]));
                lemma_keep_push(sv.take(i as int), sv[i as int], pv);
            }
            if found {
                let ghost prev = kept@;
                kept.push(copy_article(&self.entries[i]));
                proof {
                    assert(entries_view(kept@) =~= entries_view(prev).push(sv[i as int]));
                }
            }
            i = i + 1;
        }
        self.entries = kept;
        proof {
            assert(sv.take(sv.len() as int) =~= sv);
            lemma_keep_unique(sv, pv);
            assert forall|k: Seq<char>| #[trigger] lookup(self@, k) == if pv.contains(k) { lookup(sv, k) } else { None } by {
                lemma_lookup_keep(sv, pv, k);
            }
        }
    }
}

pub open spec fn strings_of(v: Seq<String>) -> Seq<Seq<char>> {
    v.map_values(|p: String| p@)
}

/// The articles whose slug is in `present`, in their order.
pub open spec fn keep_present(s: Seq<ArticleView>, present: Seq<Seq<char>>) -> Seq<ArticleView>
    decreases s.len(),
{
    if s.len() == 0 {
        Seq::empty()
    } else if present.contains(s[0].slug) {
        seq![s[0]] + keep_present(s.drop_first(), present)
    } else {
        keep_present(s.drop_first(), present)
    }
}

proof fn lemma_keep_push(s: Seq<ArticleView>, x: ArticleView, p: Seq<Seq<char>>)
    ensures
        keep_present(s.push(x), p) == keep_present(s, p) + (if p.contains(x.slug) { seq![x] } else { Seq::empty() }),
    decreases s.len(),
{
    if s.len() == 0 {
        assert(s.push(x).drop_first() =~= Seq::<ArticleView>::empty());
        assert(s.push(x)[0] == x);
        assert(keep_present(Seq::<ArticleView>::empty(), p) =~= Seq::<ArticleView>::empty());
        assert(keep_present(s, p) =~= Seq::<ArticleView>::empty());
        assert(keep_present(s.push(x), p) =~= keep_present(s, p) + (if p.contains(x.slug) { seq![x] } else { Seq::empty() }));
    } else {
        assert(s.push(x).drop_first() =~= s.drop_first().push(x));
        lemma_keep_push(s.drop_first(), x, p);
        assert(keep_present(s.push(x), p) =~= keep_present(s, p) + (if p.contains(x.slug) { seq![x] } else { Seq::empty() }));
    }
}

proof fn lemma_lookup_keep(s: Seq<ArticleView>, p: Seq<Seq<char>>, k: Seq<char>)
    ensures
        lookup(keep_present(s, p), k) == if p.contains(k) { lookup(s, k) } else { None },
    decreases s.len(),
{
    if s.len() > 0 {
        lemma_lookup_keep(s.drop_first(), p, k);
        if p.contains(s[0].slug) {
            let r = seq![s[0]] + keep_present(s.drop_first(), p);
            assert(r.drop_first() =~= keep_present(s.drop_first(), p));
        }
    }
}

proof fn lemma_keep_members(s: Seq<ArticleView>, p: Seq<Seq<char>>)
    ensures
        forall|j: int| 0 <= j < keep_present(s, p).len() ==> s.contains(#[trigger] keep_present(s, p)[j]),
    decreases s.len(),
{
    if s.len() > 0 {
        let t = s.drop_first();
        lemma_keep_members(t, p);
        assert forall|j: int| 0 <= j < keep_present(s, p).len() implies s.contains(#[trigger] keep_present(s, p)[j]) by {
            if p.contains(s[0].slug) {
                if j == 0 {
                    assert(s[0] == keep_present(s, p)[j]);
                } else {
                    assert(keep_present(s, p)[j] == keep_present(t, p)[j - 1]);
                    let m = choose|m: int| 0 <= m < t.len() && t[m] == keep_present(t, p)[j - 1];
                    assert(s[m + 1] == t[m]);
                }
            } else {
                let m = choose|m: int| 0 <= m < t.len() && t[m] == keep_present(t, p)[j];
                assert(s[m + 1] == t[m]);
            }
        }
    }
}

proof fn lemma_keep_unique(s: Seq<ArticleView>, p: Seq<Seq<char>>)
    requires
        unique_slugs(s),
    ensures
        unique_slugs(keep_present(s, p)),
    decreases s.len(),
{
    if s.len() > 0 {
        let t = s.drop_first();
        assert(unique_slugs(t)) by {
            assert forall|i: int, j: int| 0 <= i < j < t.len() implies #[trigger] t[i].slug != #[trigger] t[j].slug by {
                assert(t[i] == s[i + 1] && t[j] == s[j + 1]);
            }
        }
        lemma_keep_unique(t, p);
        lemma_keep_members(t, p);
        if p.contains(s[0].slug) {
            let r = keep_present(s, p);
            let kt = keep_present(t, p);
            assert forall|i: int, j: int| 0 <= i < j < r.len() implies #[trigger] r[i].slug != #[trigger] r[j].slug by {
                assert(r[j] == kt[j - 1]);
                if i == 0 {
                    assert(t.contains(kt[j - 1]));
                    let m = choose|m: int| 0 <= m < t.len() && t[m] == kt[j - 1];
                    assert(s[m + 1] == t[m]);
                    assert(s[0].slug != s[m + 1].slug);
                } else {
                    assert(r[i] == kt[i - 1]);
                }
            }
        }
    }
}

/// Whether `v` holds a string equal to `s`.
fn contains_string(v: &Vec<String>, s: &str) -> (r: bool)
    ensures
        r == strings_of(v@).contains(s@),
{
    let mut j: usize = 0;
    while j < v.len()
        invariant
            j <= v.len(),
            forall|q: int| 0 <= q < j ==> strings_of(v@)[q] != s@,
        decreases v.len() - j,
    {
        if same_text(v[j].as_str(), s) {
            assert(strings_of(v@)[j as int] == s@);
            return true;
        }
        j = j + 1;
    }
    false
}


/// What a refresh of `slug` does: the article under `slug`, when stale for
/// `modified`, gets the new title, content and time together; every other
/// slug reads as before.
pub open spec fn refresh_step(
    before: Seq<ArticleView>,
    after: Seq<ArticleView>,
    slug: Seq<char>,
    modified: u64,
    title: Seq<char>,
    content: Seq<char>,
) -> bool {
    &&& lookup(after, slug) == (match lookup(before, slug) {
        Some(a) => if is_stale_spec(a.last_modified, modified) {
            Some(refreshed(a, title, content, modified))
        } else {
            Some(a)
        },
        None => None,
    })
    &&& forall|k: Seq<char>| k != slug ==> #[trigger] lookup(after, k) == lookup(before, k)
}

/// No torn reads: after a refresh, a reader of `slug` finds either the article
/// as it was, or that article with title, content and modification time all
/// from the new render; never the new title beside the old content.
pub proof fn lemma_refresh_whole(
    before: Seq<ArticleView>,
    after: Seq<ArticleView>,
    slug: Seq<char>,
    modified: u64,
    title: Seq<char>,
    content: Seq<char>,
)
    requires
        refresh_step(before, after, slug, modified, title, content),
    ensures
        lookup(after, slug) == lookup(before, slug) || (lookup(before, slug) matches Some(a) && lookup(
            after,
            slug,
        ) == Some(ArticleView { title, content, last_modified: modified, ..a }) && a.last_modified
            < modified),
{
}

/// An unknown slug is not found; and once a sweep drops the articles whose
/// source is gone, a slug not among the present sources is not found either.
pub proof fn lemma_swept_slug_not_found(before: Seq<ArticleView>, present: Seq<Seq<char>>, slug: Seq<char>)
    requires
        !present.contains(slug),
    ensures
        lookup(keep_present(before, present), slug) is None,
{
    lemma_lookup_keep(before, present, slug);
}

} // verus!

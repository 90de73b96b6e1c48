//! The article listing: newest articles first, each shown as a card.

use vstd::prelude::*;
use crate::store::ArticleStore;

verus! {

/// What a card of the listing shows.
#[derive(Clone, Debug, PartialEq, Eq)]
pub struct Card {
    pub slug: String,
    pub title: String,
    pub english_time: String,
    pub chinese_time: String,
}

pub open spec fn card_text(c: Card) -> Seq<char> {
    "<div class=\"card\">\n                <h2><a href=\"/articles/"@ + c.slug@ + "\">"@ + c.title@
        + "</a></h2>\n                <div class=\"time-container\"><span>"@ + c.english_time@
        + "</span> <span>"@ + c.chinese_time@ + "</span></div>\n            </div>"@
}

/// The cards one after another.
pub open spec fn cards_text(cards: Seq<Card>) -> Seq<char>
    decreases cards.len(),
{
    if cards.len() == 0 {
        Seq::empty()
    } else {
        cards_text(cards.drop_last()) + card_text(cards.last())
    }
}

/// The listing page: the shared head, then a heading and the cards inside the
/// content container.
pub open spec fn index_text(head: Seq<char>, cards: Seq<Card>) -> Seq<char> {
    "<!DOCTYPE html>\n<html>\n"@ + head + "\n<body>\n<main class=\"container\">\n"@ + "<h1>Articles</h1>"@
        + cards_text(cards) + "</main>\n</body>\n</html>"@
}

/// Builds the listing page from its cards, in the order given.
pub fn index_page(head: &str, cards: &Vec<Card>) -> (r: String)
    ensures
        r@ == index_text(head@, cards@),
{
    let mut r = String::from_str("<!DOCTYPE html>\n<html>\n");
    r.append(head);
    r.append("\n<body>\n<main class=\"container\">\n");
    r.append("<h1>Articles</h1>");
    let ghost start = r@;
    let mut i: usize = 0;
    proof {
        assert(cards@.take(0) =~= Seq::<Card>::empty());
        assert(start =~= start + cards_text(cards@.take(0)));
    }
    while i < cards.len()
        invariant
            i <= cards.len(),
            r@ == start + cards_text(cards@.take(i as int)),
        decreases cards.len() - i,
    {
        let c = &cards[i];
        r.append("<div class=\"card\">\n                <h2><a href=\"/articles/");
        r.append(c.slug.as_str());
        r.append("\">");
        r.append(c.title.as_str());
        r.append("</a></h2>\n                <div class=\"time-container\"><span>");
        r.append(c.english_time.as_str());
        r.append("</span> <span>");
        r.append(c.chinese_time.as_str());
        r.append("</span></div>\n            </div>");
        proof {
            assert(cards@.take(i + 1).drop_last() =~= cards@.take(i as int));
            assert(r@ =~= start + cards_text(cards@.take(i + 1)));
        }
        i = i + 1;
    }
    r.append("</main>\n</body>\n</html>");
    proof {
        assert(cards@.take(cards@.len() as int) =~= cards@);
    }
    r
}

/// The positions of the articles, newest creation time first.
pub fn newest_first(store: &ArticleStore) -> (r: Vec<usize>)
    ensures
        r@.len() == store@.len(),
        r@.no_duplicates(),
        forall|k: int| 0 <= k < r@.len() ==> #[trigger] r@[k] < store@.len(),
        forall|a: int, b: int| 0 <= a < b < r@.len() ==> store@[#[trigger] r@[a] as int].created_at >= store@[#[trigger] r@[b] as int].created_at,
{
    let ghost sv = store@;
    let n = store.entries.len();
    let mut r: Vec<usize> = Vec::new();
    let mut i: usize = 0;
    while i < n
        invariant
            sv == store@,
            n == store.entries@.len() == sv.len(),
            i <= n,
            r@.len() == i,
            r@.no_duplicates(),
            forall|k: int| 0 <= k < r@.len() ==> #[trigger] r@[k] < i,
            forall|a: int, b: int| 0 <= a < b < r@.len() ==> sv[#[trigger] r@[a] as int].created_at >= sv[#[trigger] r@[b] as int].created_at,
        decreases n - i,
    {
        let ci = store.entries[i].created_at;
        assert(sv[i as int].created_at == ci);
        let mut j: usize = 0;
        while j < r.len() && store.entries[r[j]].created_at >= ci
            invariant
                sv == store@,
                n == store.entries@.len() == sv.len(),
                i < n,
                r@.len() == i,
                j <= r@.len(),
                ci == sv[i as int].created_at,
                forall|k: int| 0 <= k < r@.len() ==> #[trigger] r@[k] < i,
                forall|k: int| 0 <= k < j ==> sv[#[trigger] r@[k] as int].created_at >= ci,
            decreases r@.len() - j,
        {
            assert(sv[r@[j as int] as int] == store.entries@[r@[j as int] as int]@);
            j = j + 1;
        }
        proof {
            if j < r@.len() {
                assert(sv[r@[j as int] as int] == store.entries@[r@[j as int] as int]@);
                assert(sv[r@[j as int] as int].created_at < ci);
            }
        }
        let ghost prev = r@;
        r.insert(j, i);
        proof {
            assert(r@ == prev.insert(j as int, i));
            assert forall|k: int| 0 <= k < r@.len() implies #[trigger] r@[k] < i + 1 by {
                if k < j { assert(r@[k] == prev[k]); } else if k > j { assert(r@[k] == prev[k - 1]); }
            }
            assert forall|a: int, b: int| 0 <= a < b < r@.len() implies sv[#[trigger] r@[a] as int].created_at >= sv[#[trigger] r@[b] as int].created_at by {
                if b < j {
                    assert(r@[a] == prev[a] && r@[b] == prev[b]);
                } else if b == j {
                    assert(r@[a] == prev[a]);
                } else if a == j {
                    assert(r@[b] == prev[b - 1]);
                    if j < prev.len() {
                        assert(sv[prev[j as int] as int].created_at < ci);
                        if b - 1 > j {
                            assert(sv[prev[j as int] as int].created_at >= sv[prev[b - 1] as int].created_at);
                        }
                    }
                } else if a < j {
                    assert(r@[a] == prev[a] && r@[b] == prev[b - 1]);
                } else {
                    assert(r@[a] == prev[a - 1] && r@[b] == prev[b - 1]);
                }
            }
            assert forall|a: int, b: int| 0 <= a < r@.len() && 0 <= b < r@.len() && a != b implies r@[a] != r@[b] by {
                let pa = if a < j { a } else if a > j { a - 1 } else { -1 };
                let pb = if b < j { b } else if b > j { b - 1 } else { -1 };
                if pa >= 0 && pb >= 0 {
                    assert(r@[a] == prev[pa] && r@[b] == prev[pb]);
                } else if pa >= 0 {
                    assert(r@[a] == prev[pa]);
                } else if pb >= 0 {
                    assert(r@[b] == prev[pb]);
                }
            }
        }
        i = i + 1;
    }
    r
}

} // verus!

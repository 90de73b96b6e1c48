//! From markdown source to a page: title extraction, the page template, and
//! the post-processing of a parsed page (table of contents, then footnotes).

use vstd::prelude::*;
use crate::doc::Document;
use pulldown_cmark::Options;
use crate::footnote::{process_footnote, relocated};
use crate::toc::{enable_table_of_contents, trim_text, trimmed, with_toc};

verus! {

/// The name of what pulldown-cmark renders from a markdown text, with the
/// extensions this site enables.
pub uninterp spec fn markdown_html(s: Seq<char>) -> Seq<char>;

/// Relies on `pulldown_cmark::Parser::new_ext` and
/// `pulldown_cmark::html::push_html`: the HTML rendering of the markdown,
/// which depends on the text alone.
#[verifier::external_body]
pub(crate) fn markdown_to_html(content: &str) -> (r: String)
    ensures
        r@ == markdown_html(content@),
{
    let options = Options::ENABLE_MATH | Options::ENABLE_GFM | Options::ENABLE_STRIKETHROUGH
        | Options::ENABLE_SUBSCRIPT | Options::ENABLE_SUPERSCRIPT | Options::ENABLE_TABLES
        | Options::ENABLE_TASKLISTS | Options::ENABLE_FOOTNOTES | Options::ENABLE_WIKILINKS;
    let mut out = String::new();
    pulldown_cmark::html::push_html(&mut out, pulldown_cmark::Parser::new_ext(content, options));
    out
}

/// The position of the first line feed at or after `i`, or the length.
pub open spec fn line_end(s: Seq<char>, i: int) -> int
    decreases s.len() - i,
{
    if i < 0 || i >= s.len() {
        s.len() as int
    } else if s[i] == '\n' {
        i
    } else {
        line_end(s, i + 1)
    }
}

/// A line without the carriage return that ends it, if any.
pub open spec fn strip_cr(l: Seq<char>) -> Seq<char> {
    if l.len() > 0 && l.last() == '\r' { l.drop_last() } else { l }
}

/// The first line, starting at or after position `i`, whose text is not
/// only whitespace.
pub open spec fn first_nonempty_line(s: Seq<char>, i: int) -> Seq<char>
    decreases s.len() - i,
{
    let e = line_end(s, i);
    if i < 0 || i >= s.len() || e < i || e > s.len() {
        Seq::empty()
    } else if trimmed(strip_cr(s.subrange(i, e))).len() > 0 {
        strip_cr(s.subrange(i, e))
    } else if e + 1 > s.len() {
        Seq::empty()
    } else {
        first_nonempty_line(s, e + 1)
    }
}

/// The number of `#` characters that start `l` from position `i`.
pub open spec fn hashes_from(l: Seq<char>, i: int) -> int
    decreases l.len() - i,
{
    if i < 0 || i >= l.len() || l[i] != '#' { i } else { hashes_from(l, i + 1) }
}

/// The title text of a source: its first line that is not blank, without
/// leading `#` characters and surrounding whitespace.
pub open spec fn title_text(s: Seq<char>) -> Seq<char> {
    let l = first_nonempty_line(s, 0);
    trimmed(l.skip(hashes_from(l, 0)))
}

/// The rendered title of a markdown source.
pub fn extract_title(content: &str) -> (r: String)
    ensures
        r@ == markdown_html(title_text(content@)),
{
    let ghost s = content@;
    let n = content.unicode_len();
    let mut i: usize = 0;
    let mut line: &str = "";
    let mut done = false;
    proof {
        reveal_strlit("");
    }
    while i < n && !done
        invariant
            n == s.len(),
            i <= n,
            s == content@,
            done ==> line@ == first_nonempty_line(s, 0),
            !done ==> first_nonempty_line(s, 0) == first_nonempty_line(s, i as int),
            !done ==> line@ == Seq::<char>::empty(),
        decreases n - i + (if done { 0int } else { 1int }),
    {
        let mut e = i;
        while e < n && content.get_char(e) != '\n'
            invariant
                n == s.len(),
                i <= e <= n,
                s == content@,
                line_end(s, i as int) == line_end(s, e as int),
            decreases n - e,
        {
            e = e + 1;
        }
        let piece = content.substring_char(i, e);
        let len = piece.unicode_len();
        let l = if len > 0 && piece.get_char(len - 1) == '\r' {
            piece.substring_char(0, len - 1)
        } else {
            piece
        };
        proof {
            assert(line_end(s, e as int) == e);
            if len > 0 {
                assert(piece@.last() == piece@[len - 1]);
                assert(piece@.subrange(0, len - 1) =~= piece@.drop_last());
            }
            assert(l@ == strip_cr(s.subrange(i as int, e as int)));
        }
        proof {
            assert(line_end(s, i as int) == e);
        }
        let lt = trim_text(l);
        if lt.as_str().unicode_len() > 0 {
            line = l;
            done = true;
            proof {
                assert(first_nonempty_line(s, i as int) == l@);
            }
        } else {
            proof {
                if e < n {
                    assert(first_nonempty_line(s, i as int) == first_nonempty_line(s, e + 1));
                } else {
                    assert(first_nonempty_line(s, i as int) == Seq::<char>::empty());
                    assert(first_nonempty_line(s, n as int) == Seq::<char>::empty());
                }
            }
            i = if e < n { e + 1 } else { n };
        }
    }
    let m = line.unicode_len();
    let mut k: usize = 0;
    while k < m && line.get_char(k) == '#'
        invariant
            m == line@.len(),
            k <= m,
            hashes_from(line@, 0) == hashes_from(line@, k as int),
        decreases m - k,
    {
        k = k + 1;
    }
    let rest = line.substring_char(k, m);
    proof {
        assert(rest@ =~= line@.skip(k as int));
    }
    let t = trim_text(rest);
    markdown_to_html(t.as_str())
}

/// The page around rendered body HTML: the shared head, and the body inside
/// the content container.
pub open spec fn page_text(head: Seq<char>, body: Seq<char>) -> Seq<char> {
    "<!DOCTYPE html>\n<html>\n"@ + head + "\n<body>\n<main class=\"container\">\n"@ + body
        + "\n</main>\n</body>\n</html>"@
}

/// Wraps rendered body HTML into a full page with the given head.
pub fn page_html(head: &str, body: &str) -> (r: String)
    ensures
        r@ == page_text(head@, body@),
{
    let mut r = String::from_str("<!DOCTYPE html>\n<html>\n");
    r.append(head);
    r.append("\n<body>\n<main class=\"container\">\n");
    r.append(body);
    r.append("\n</main>\n</body>\n</html>");
    r
}

/// The page of a markdown source, before post-processing.
pub fn generate_page(head: &str, source: &str) -> (r: String)
    ensures
        r@ == page_text(head@, markdown_html(source@)),
{
    let body = markdown_to_html(source);
    page_html(head, body.as_str())
}

/// The post-processed page: headings numbered with a table of contents, then
/// footnote definitions relocated.
pub open spec fn post_processed(s: Seq<crate::doc::TokenView>) -> Seq<crate::doc::TokenView> {
    relocated(with_toc(s))
}

/// Adds the table of contents to a parsed page, then relocates its footnotes.
pub fn post_process(document: &Document) -> (r: Document)
    ensures
        r@ == post_processed(document@),
{
    let with_contents = enable_table_of_contents(document);
    process_footnote(&with_contents)
}


/// Post-processing is deterministic: documents that read the same give
/// results that read the same.
pub proof fn lemma_post_process_deterministic(d1: Document, d2: Document, r1: Document, r2: Document)
    requires
        d1@ == d2@,
        r1@ == post_processed(d1@),
        r2@ == post_processed(d2@),
    ensures
        r1@ == r2@,
{
}

/// Page generation is deterministic: the same head and source give the same
/// page.
pub proof fn lemma_page_deterministic(head: Seq<char>, source: Seq<char>, r1: Seq<char>, r2: Seq<char>)
    requires
        r1 == page_text(head, markdown_html(source)),
        r2 == page_text(head, markdown_html(source)),
    ensures
        r1 == r2,
{
}

} // verus!

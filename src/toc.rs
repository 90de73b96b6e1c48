//! Heading numbering and the table of contents: each heading gets an anchor id
//! built from its numeric path, and a nested list of links to the headings is
//! placed after the first level-1 heading.

use vstd::prelude::*;
use crate::doc::{
    element_text, find_class, find_close, push_range, Document,
    attrs_view, close_of, copy_token, first_with_class, heading_level, same_text, text_of,
    token_heading_level, tokens_view, Attr, Token, TokenView,
};
use crate::helper::{decimal, push_decimal};
use crate::outline::{parents_of, counters_after, lemma_counters_len, lemma_counters_prefix, number_path, toc_parent};

verus! {

/// A character with Unicode's White_Space property.
pub open spec fn is_white_space(c: char) -> bool {
    let n = c as u32;
    (0x9 <= n <= 0xD) || n == 0x20 || n == 0x85 || n == 0xA0 || n == 0x1680 || (0x2000 <= n <= 0x200A)
        || n == 0x2028 || n == 0x2029 || n == 0x202F || n == 0x205F || n == 0x3000
}

/// The first position at or after `i` that holds no white space (or the length).
pub open spec fn skip_white(s: Seq<char>, i: int) -> int
    decreases s.len() - i,
{
    if i < 0 || i >= s.len() || !is_white_space(s[i]) { i } else { skip_white(s, i + 1) }
}

/// The end of `s[..j]` once its trailing white space is dropped.
pub open spec fn drop_white_end(s: Seq<char>, j: int) -> int
    decreases j,
{
    if j <= 0 || j > s.len() || !is_white_space(s[j - 1]) { j } else { drop_white_end(s, j - 1) }
}

/// The text without leading and trailing white space.
pub open spec fn trimmed(s: Seq<char>) -> Seq<char> {
    let a = skip_white(s, 0);
    if a >= s.len() { Seq::empty() } else { s.subrange(a, drop_white_end(s, s.len() as int)) }
}

fn white_space(c: char) -> (r: bool)
    ensures
        r == is_white_space(c),
{
    let n = c as u32;
    (0x9 <= n && n <= 0xD) || n == 0x20 || n == 0x85 || n == 0xA0 || n == 0x1680 || (0x2000 <= n && n <= 0x200A)
        || n == 0x2028 || n == 0x2029 || n == 0x202F || n == 0x205F || n == 0x3000
}

/// The text without leading and trailing white space, as `str::trim` gives it.
pub fn trim_text(s: &str) -> (r: String)
    ensures
        r@ == trimmed(s@),
{
    let n = s.unicode_len();
    let mut a: usize = 0;
    while a < n && white_space(s.get_char(a))
        invariant
            n == s@.len(),
            a <= n,
            skip_white(s@, 0) == skip_white(s@, a as int),
        decreases n - a,
    {
        a = a + 1;
    }
    if a >= n {
        proof {
            reveal_strlit("");
        }
        return String::from_str("");
    }
    let mut b: usize = n;
    while b > a + 1 && white_space(s.get_char(b - 1))
        invariant
            n == s@.len(),
            a < b <= n,
            drop_white_end(s@, n as int) == drop_white_end(s@, b as int),
        decreases b,
    {
        b = b - 1;
    }
    proof {
        if b == a + 1 && is_white_space(s@[b - 1]) {
            assert(s@[a as int] == s@[b - 1]);
        }
    }
    String::from_str(s.substring_char(a, b))
}

/// The levels of the headings of `s`, in document order.
pub open spec fn heading_levels(s: Seq<TokenView>) -> Seq<nat>
    decreases s.len(),
{
    if s.len() == 0 {
        Seq::empty()
    } else if heading_level(s.last()) > 0 {
        heading_levels(s.drop_last()).push(heading_level(s.last()))
    } else {
        heading_levels(s.drop_last())
    }
}

/// The positions of the headings of `s`, in document order.
pub open spec fn heading_positions(s: Seq<TokenView>) -> Seq<int>
    decreases s.len(),
{
    if s.len() == 0 {
        Seq::empty()
    } else if heading_level(s.last()) > 0 {
        heading_positions(s.drop_last()).push(s.len() - 1)
    } else {
        heading_positions(s.drop_last())
    }
}

/// A numeric path written with dots between its counts ("2.0.1").
pub open spec fn path_text(c: Seq<nat>) -> Seq<char>
    decreases c.len(),
{
    if c.len() == 0 {
        Seq::empty()
    } else if c.len() == 1 {
        decimal(c[0])
    } else {
        path_text(c.drop_last()) + "."@ + decimal(c.last())
    }
}

/// The anchor id of heading `i`: its tag name, a dash and its numeric path.
pub open spec fn anchor_text(levels: Seq<nat>, i: nat) -> Seq<char> {
    "h"@ + decimal(levels[i as int]) + "-"@ + path_text(number_path(levels, i))
}

/// The anchor id of the heading that opens at position `p`.
pub open spec fn anchor_at(s: Seq<TokenView>, p: int) -> Seq<char> {
    let lv = heading_levels(s.take(p + 1));
    anchor_text(lv, (lv.len() - 1) as nat)
}

/// The attributes without any called `n`, in their order.
pub open spec fn without_attr(attrs: Seq<(Seq<char>, Seq<char>)>, n: Seq<char>) -> Seq<(Seq<char>, Seq<char>)>
    decreases attrs.len(),
{
    if attrs.len() == 0 {
        Seq::empty()
    } else if attrs.last().0 == n {
        without_attr(attrs.drop_last(), n)
    } else {
        without_attr(attrs.drop_last(), n).push(attrs.last())
    }
}

/// The element token with attribute `n` set to `v`, replacing any former value.
pub open spec fn with_attr(t: TokenView, n: Seq<char>, v: Seq<char>) -> TokenView {
    match t {
        TokenView::Open { name, attrs } => TokenView::Open { name, attrs: without_attr(attrs, n).push((n, v)) },
        _ => t,
    }
}

/// The document with each heading's anchor id set.
pub open spec fn with_anchors(s: Seq<TokenView>) -> Seq<TokenView> {
    Seq::new(s.len(), |p: int| if heading_level(s[p]) > 0 { with_attr(s[p], "id"@, anchor_at(s, p)) } else { s[p] })
}

/// The next heading is deeper: the entry opens a sublist.
pub open spec fn has_child(levels: Seq<nat>, i: int) -> bool {
    i + 1 < levels.len() && levels[i] < levels[i + 1]
}

pub open spec fn open_tag(name: Seq<char>, attrs: Seq<(Seq<char>, Seq<char>)>) -> TokenView {
    TokenView::Open { name, attrs }
}

/// The list item of heading `i`: a link to its anchor, then its sublist if it has one.
pub open spec fn entry_tokens(levels: Seq<nat>, anchors: Seq<Seq<char>>, labels: Seq<Seq<char>>, i: int) -> Seq<TokenView>
    decreases 2 * (levels.len() - i),
{
    if i < 0 || i >= levels.len() {
        Seq::empty()
    } else {
        seq![
            open_tag("li"@, seq![("class"@, "toc-level-"@ + decimal(levels[i]))]),
            open_tag("a"@, seq![("href"@, "#"@ + anchors[i])]),
            TokenView::Text(labels[i]),
            TokenView::Close,
        ] + (if has_child(levels, i) {
            seq![open_tag("ul"@, Seq::empty())] + children_tokens(levels, anchors, labels, Some(i as nat), i + 1)
                + seq![TokenView::Close]
        } else {
            Seq::empty()
        }) + seq![TokenView::Close]
    }
}

/// The list items, from heading `k` on, of the headings nested directly under `parent`.
pub open spec fn children_tokens(
    levels: Seq<nat>,
    anchors: Seq<Seq<char>>,
    labels: Seq<Seq<char>>,
    parent: Option<nat>,
    k: int,
) -> Seq<TokenView>
    decreases 2 * (levels.len() - k) + 1,
{
    if k < 0 || k >= levels.len() {
        Seq::empty()
    } else {
        (if toc_parent(levels, k) == parent { entry_tokens(levels, anchors, labels, k) } else { Seq::empty() })
            + children_tokens(levels, anchors, labels, parent, k + 1)
    }
}

pub open spec fn toggle_style() -> Seq<char> {
    "margin-right: 10px; padding: 5px 10px; cursor: pointer; font-size: 1em;"@
}

pub open spec fn toggle_script() -> Seq<char> {
    "const subLists = document.querySelectorAll('.table-of-contents ul'); if (this.textContent.includes('折叠')) { subLists.forEach(subList => { subList.style.display = 'none'; }); this.textContent = '展开目录 👆'; } else { subLists.forEach(subList => { subList.style.display = 'block'; }); this.textContent = '折叠目录 👇'; }"@
}

/// The table of contents: a container holding the collapse toggle and the
/// nested list of entries.
pub open spec fn toc_tokens(levels: Seq<nat>, anchors: Seq<Seq<char>>, labels: Seq<Seq<char>>) -> Seq<TokenView> {
    seq![
        open_tag("div"@, seq![("id"@, "table-of-contents"@), ("class"@, "table-of-contents"@)]),
        open_tag("button"@, seq![("class"@, "toggle-btn"@), ("style"@, toggle_style()), ("onclick"@, toggle_script())]),
        TokenView::Text("折叠目录 👇"@),
        TokenView::Close,
        open_tag("ul"@, seq![("class"@, "toc-list"@)]),
    ] + children_tokens(levels, anchors, labels, None, 0) + seq![TokenView::Close, TokenView::Close]
}

/// The table of contents of document `s`.
pub open spec fn toc_of(s: Seq<TokenView>) -> Seq<TokenView> {
    let pos = heading_positions(s);
    toc_tokens(
        heading_levels(s),
        Seq::new(pos.len(), |i: int| anchor_at(s, pos[i])),
        Seq::new(pos.len(), |i: int| trimmed(text_of(s, pos[i]))),
    )
}

/// The first position at or after `i` that opens a level-1 heading.
pub open spec fn first_h1(s: Seq<TokenView>, i: int) -> Option<nat>
    decreases s.len() - i,
{
    if i < 0 || i >= s.len() {
        None
    } else if heading_level(s[i]) == 1 {
        Some(i as nat)
    } else {
        first_h1(s, i + 1)
    }
}

/// Where the table of contents goes: just after the element opened at `f`.
pub open spec fn after_element(s: Seq<TokenView>, f: int) -> int {
    if close_of(s, f) < s.len() { close_of(s, f) + 1 } else { s.len() as int }
}

/// The document after numbering and table of contents: unchanged without
/// headings or without a content container; otherwise headings carry
/// anchors, and the table of contents follows the first level-1 heading when
/// there is one.
pub open spec fn with_toc(s: Seq<TokenView>) -> Seq<TokenView> {
    if heading_levels(s).len() == 0 {
        s
    } else {
        let s1 = with_anchors(s);
        match (first_with_class(s, "container"@, 0), first_h1(s, 0)) {
            (Some(_), Some(f)) => {
                let at = after_element(s1, f as int);
                s1.take(at) + toc_of(s) + s1.skip(at)
            },
            (Some(_), None) => s1,
            (None, _) => s,
        }
    }
}

proof fn lemma_headings_len(s: Seq<TokenView>)
    ensures
        heading_levels(s).len() == heading_positions(s).len(),
        forall|i: int| 0 <= i < heading_positions(s).len() ==> 0 <= #[trigger] heading_positions(s)[i] < s.len()
            && heading_level(s[heading_positions(s)[i]]) == heading_levels(s)[i]
            && heading_levels(s)[i] > 0,
        heading_levels(s).len() <= s.len(),
    decreases s.len(),
{
    if s.len() > 0 {
        lemma_headings_len(s.drop_last());
        let r = s.drop_last();
        assert forall|i: int| 0 <= i < heading_positions(r).len() implies s[#[trigger] heading_positions(r)[i]] == r[heading_positions(r)[i]] by {}
    }
}

/// `attrs` without any attribute called `n`.
fn attrs_without(attrs: &Vec<Attr>, n: &str) -> (r: Vec<Attr>)
    ensures
        attrs_view(r@) == without_attr(attrs_view(attrs@), n@),
{
    let mut r: Vec<Attr> = Vec::new();
    let mut i: usize = 0;
    while i < attrs.len()
        invariant
            i <= attrs.len(),
            attrs_view(r@) == without_attr(attrs_view(attrs@.take(i as int)), n@),
        decreases attrs.len() - i,
    {
        proof {
            assert(attrs_view(attrs@.take(i + 1)).drop_last() =~= attrs_view(attrs@.take(i as int)));
        }
        if !same_text(attrs[i].name.as_str(), n) {
            let ghost prev = r@;
            r.push(Attr { name: attrs[i].name.clone(), value: attrs[i].value.clone() });
            proof {
                assert(attrs_view(r@) =~= attrs_view(prev).push((attrs[i as int].name@, attrs[i as int].value@)));
            }
        }
        i = i + 1;
    }
    proof {
        assert(attrs@.take(attrs.len() as int) =~= attrs@);
    }
    r
}

/// A copy of the token with attribute `n` set to `v`.
fn token_with_attr(t: &Token, n: &str, v: String) -> (r: Token)
    ensures
        r@ == with_attr(t@, n@, v@),
{
    match t {
        Token::Open { name, attrs } => {
            let mut a = attrs_without(attrs, n);
            let ghost prev = a@;
            a.push(Attr { name: String::from_str(n), value: v });
            proof {
                assert(attrs_view(a@) =~= attrs_view(prev).push((n@, v@)));
            }
            Token::Open { name: name.clone(), attrs: a }
        },
        _ => copy_token(t),
    }
}

/// The numeric path of the first `len` counters, with dots between them.
fn path_string(c: &Vec<u64>, len: usize) -> (r: String)
    requires
        1 <= len <= c.len(),
    ensures
        r@ == path_text(c@.map_values(|x: u64| x as nat).take(len as int)),
{
    let ghost cv = c@.map_values(|x: u64| x as nat);
    let mut r = String::new();
    push_decimal(&mut r, c[0]);
    proof {
        assert(cv.take(1).len() == 1);
    }
    let mut k: usize = 1;
    while k < len
        invariant
            cv == c@.map_values(|x: u64| x as nat),
            1 <= k <= len <= c.len(),
            r@ == path_text(cv.take(k as int)),
        decreases len - k,
    {
        r.append(".");
        push_decimal(&mut r, c[k]);
        proof {
            assert(cv.take(k + 1).drop_last() =~= cv.take(k as int));
        }
        k = k + 1;
    }
    r
}

/// Numbers the headings of `s`: the document with anchors set, and for each
/// heading its position, its level and its anchor id.
fn number_headings(s: &Vec<Token>) -> (r: (Vec<Token>, Vec<usize>, Vec<u8>, Vec<String>))
    ensures
        tokens_view(r.0@) == with_anchors(tokens_view(s@)),
        r.1@.map_values(|p: usize| p as int) == heading_positions(tokens_view(s@)),
        r.2@.map_values(|l: u8| l as nat) == heading_levels(tokens_view(s@)),
        r.3@.len() == r.1@.len(),
        forall|i: int| 0 <= i < r.3@.len() ==> (#[trigger] r.3@[i])@ == anchor_at(tokens_view(s@), r.1@[i] as int),
{
    let ghost sv = tokens_view(s@);
    let mut out: Vec<Token> = Vec::new();
    let mut positions: Vec<usize> = Vec::new();
    let mut levels: Vec<u8> = Vec::new();
    let mut anchors: Vec<String> = Vec::new();
    let mut counters: Vec<u64> = vec![0, 0, 0, 0, 0, 0];
    let mut p: usize = 0;
    proof {
        assert(sv.take(0) =~= Seq::<TokenView>::empty());
        assert(counters@.map_values(|x: u64| x as nat) =~= counters_after(Seq::<nat>::empty(), 0));
    }
    while p < s.len()
        invariant
            sv == tokens_view(s@),
            p <= s.len(),
            out@.len() == p,
            tokens_view(out@) == with_anchors(sv).take(p as int),
            positions@.map_values(|q: usize| q as int) == heading_positions(sv.take(p as int)),
            levels@.map_values(|l: u8| l as nat) == heading_levels(sv.take(p as int)),
            anchors@.len() == positions@.len(),
            forall|i: int| 0 <= i < anchors@.len() ==> (#[trigger] anchors@[i])@ == anchor_at(sv, positions@[i] as int),
            counters@.len() == 6,
            counters@.map_values(|x: u64| x as nat) == counters_after(levels@.map_values(|l: u8| l as nat), levels@.len() as nat),
            forall|k: int| 0 <= k < 6 ==> #[trigger] counters@[k] <= p,
            levels@.len() <= p,
        decreases s.len() - p,
    {
        let level = token_heading_level(&s[p]);
        let ghost lv = levels@.map_values(|l: u8| l as nat);
        proof {
            assert(sv.take(p + 1).drop_last() =~= sv.take(p as int));
            assert(sv.take(p + 1).last() == sv[p as int]);
        }
        let ghost prev_out = out@;
        if level > 0 {
            let mut k: usize = level as usize;
            while k < 6
                invariant
                    1 <= level <= 6,
                    level <= k <= 6,
                    counters@.len() == 6,
                    forall|j: int| 0 <= j < 6 ==> #[trigger] counters@[j] <= p,
                    forall|j: int| 0 <= j < 6 ==> #[trigger] counters@[j] as nat == (if j < level || j >= k {
                        counters_after(lv, lv.len())[j]
                    } else {
                        0
                    }),
                    lv == levels@.map_values(|l: u8| l as nat),
                    counters_after(lv, lv.len()).len() == 6,
                decreases 6 - k,
            {
                counters.set(k, 0);
                k = k + 1;
            }
            let c = counters[level as usize - 1];
            counters.set(level as usize - 1, c + 1);
            levels.push(level);
            positions.push(p);
            proof {
                let nl = levels@.map_values(|l: u8| l as nat);
                assert(nl =~= lv.push(level as nat));
                lemma_counters_prefix(lv, level as nat, lv.len());
                lemma_counters_len(lv, lv.len());
                assert(counters@.map_values(|x: u64| x as nat) =~= counters_after(nl, nl.len()));
                assert(heading_levels(sv.take(p + 1)) == nl);
                assert(positions@.map_values(|q: usize| q as int) =~= heading_positions(sv.take(p + 1)));
            }
            let mut id = String::from_str("h");
            push_decimal(&mut id, level as u64);
            id.append("-");
            let path = path_string(&counters, level as usize);
            id.append(path.as_str());
            proof {
                let nl = levels@.map_values(|l: u8| l as nat);
                let i = (nl.len() - 1) as nat;
                assert(counters_after(nl, i + 1) == counters@.map_values(|x: u64| x as nat));
                assert(id@ =~= anchor_text(nl, i));
                assert(id@ == anchor_at(sv, p as int));
            }
            let t = token_with_attr(&s[p], "id", id.clone());
            out.push(t);
            anchors.push(id);
        } else {
            out.push(copy_token(&s[p]));
            proof {
                assert(positions@.map_values(|q: usize| q as int) =~= heading_positions(sv.take(p + 1)));
            }
        }
        proof {
            assert(tokens_view(out@) =~= with_anchors(sv).take(p + 1)) by {
                assert(tokens_view(out@) =~= tokens_view(prev_out).push(out@[p as int]@));
            }
        }
        p = p + 1;
    }
    proof {
        assert(sv.take(s.len() as int) =~= sv);
        assert(with_anchors(sv).take(s.len() as int) =~= with_anchors(sv));
    }
    (out, positions, levels, anchors)
}


pub open spec fn strings_view(v: Seq<String>) -> Seq<Seq<char>> {
    v.map_values(|x: String| x@)
}

pub open spec fn levels_view(v: Seq<u8>) -> Seq<nat> {
    v.map_values(|l: u8| l as nat)
}

/// What the renderer needs of the outline: one level, anchor, label and
/// parent per heading.
pub open spec fn outline_inputs(
    levels: Seq<u8>,
    anchors: Seq<String>,
    labels: Seq<String>,
    parents: Seq<Option<usize>>,
) -> bool {
    &&& anchors.len() == levels.len()
    &&& labels.len() == levels.len()
    &&& parents_of(levels_view(levels), parents)
}

fn element(name: &str, attrs: Vec<Attr>) -> (r: Token)
    ensures
        r@ == open_tag(name@, attrs_view(attrs@)),
{
    Token::Open { name: String::from_str(name), attrs }
}

fn attr(name: &str, value: String) -> (r: Attr)
    ensures
        r.name@ == name@,
        r.value@ == value@,
{
    Attr { name: String::from_str(name), value }
}

fn push_token(out: &mut Vec<Token>, t: Token)
    ensures
        tokens_view(final(out)@) == tokens_view(old(out)@).push(t@),
{
    let ghost prev = out@;
    out.push(t);
    proof {
        assert(tokens_view(out@) =~= tokens_view(prev).push(t@));
    }
}

/// Appends the list item of heading `i`, with its nested entries.
fn emit_entry(
    levels: &Vec<u8>,
    anchors: &Vec<String>,
    labels: &Vec<String>,
    parents: &Vec<Option<usize>>,
    i: usize,
    out: &mut Vec<Token>,
)
    requires
        outline_inputs(levels@, anchors@, labels@, parents@),
        i < levels.len(),
    ensures
        tokens_view(final(out)@) == tokens_view(old(out)@) + entry_tokens(
            levels_view(levels@),
            strings_view(anchors@),
            strings_view(labels@),
            i as int,
        ),
    decreases 2 * (levels.len() - i),
{
    let ghost lv = levels_view(levels@);
    let ghost av = strings_view(anchors@);
    let ghost lb = strings_view(labels@);
    let ghost start = tokens_view(out@);
    let mut cls = String::from_str("toc-level-");
    push_decimal(&mut cls, levels[i] as u64);
    let li_attrs = vec![attr("class", cls)];
    proof {
        assert(attrs_view(li_attrs@) =~= seq![("class"@, "toc-level-"@ + decimal(lv[i as int]))]);
    }
    push_token(out, element("li", li_attrs));
    let mut href = String::from_str("#");
    href.append(anchors[i].as_str());
    let a_attrs = vec![attr("href", href)];
    proof {
        assert(attrs_view(a_attrs@) =~= seq![("href"@, "#"@ + av[i as int])]);
    }
    push_token(out, element("a", a_attrs));
    push_token(out, Token::Text(labels[i].clone()));
    push_token(out, Token::Close);
    let ghost head = tokens_view(out@);
    if i + 1 < levels.len() && levels[i] < levels[i + 1] {
        let ul_attrs: Vec<Attr> = Vec::new();
        proof {
            assert(attrs_view(ul_attrs@) =~= Seq::empty());
        }
        push_token(out, element("ul", ul_attrs));
        emit_children(levels, anchors, labels, parents, Some(i), i + 1, out);
        push_token(out, Token::Close);
    }
    push_token(out, Token::Close);
    proof {
        assert(tokens_view(out@) =~= start + entry_tokens(lv, av, lb, i as int));
    }
}

/// Appends the list items, from heading `k` on, of the headings nested
/// directly under `parent`.
fn emit_children(
    levels: &Vec<u8>,
    anchors: &Vec<String>,
    labels: &Vec<String>,
    parents: &Vec<Option<usize>>,
    parent: Option<usize>,
    k: usize,
    out: &mut Vec<Token>,
)
    requires
        outline_inputs(levels@, anchors@, labels@, parents@),
        k <= levels.len(),
    ensures
        tokens_view(final(out)@) == tokens_view(old(out)@) + children_tokens(
            levels_view(levels@),
            strings_view(anchors@),
            strings_view(labels@),
            match parent {
                Some(j) => Some(j as nat),
                None => None::<nat>,
            },
            k as int,
        ),
    decreases 2 * (levels.len() - k) + 1,
{
    let ghost lv = levels_view(levels@);
    let ghost av = strings_view(anchors@);
    let ghost lb = strings_view(labels@);
    let ghost pn = match parent {
        Some(j) => Some(j as nat),
        None => None::<nat>,
    };
    let ghost start = tokens_view(out@);
    if k >= levels.len() {
        proof {
            assert(tokens_view(out@) =~= start + children_tokens(lv, av, lb, pn, k as int));
        }
        return;
    }
    proof {
        crate::outline::lemma_parents_agree(lv, parents@, k as int);
    }
    let same = match (parents[k], parent) {
        (Some(a), Some(b)) => a == b,
        (None, None) => true,
        _ => false,
    };
    if same {
        emit_entry(levels, anchors, labels, parents, k, out);
    }
    let ghost mid = tokens_view(out@);
    emit_children(levels, anchors, labels, parents, parent, k + 1, out);
    proof {
        assert(tokens_view(out@) =~= start + children_tokens(lv, av, lb, pn, k as int));
    }
}

fn toggle_script_str() -> (r: &'static str)
    ensures
        r@ == toggle_script(),
{
    "const subLists = document.querySelectorAll('.table-of-contents ul'); if (this.textContent.includes('折叠')) { subLists.forEach(subList => { subList.style.display = 'none'; }); this.textContent = '展开目录 👆'; } else { subLists.forEach(subList => { subList.style.display = 'block'; }); this.textContent = '折叠目录 👇'; }"
}

/// Renders the table of contents of an outline.
fn render_toc(
    levels: &Vec<u8>,
    anchors: &Vec<String>,
    labels: &Vec<String>,
    parents: &Vec<Option<usize>>,
) -> (r: Vec<Token>)
    requires
        outline_inputs(levels@, anchors@, labels@, parents@),
    ensures
        tokens_view(r@) == toc_tokens(levels_view(levels@), strings_view(anchors@), strings_view(labels@)),
{
    let mut out: Vec<Token> = Vec::new();
    let div_attrs = vec![
        attr("id", String::from_str("table-of-contents")),
        attr("class", String::from_str("table-of-contents")),
    ];
    let button_attrs = vec![
        attr("class", String::from_str("toggle-btn")),
        attr("style", String::from_str("margin-right: 10px; padding: 5px 10px; cursor: pointer; font-size: 1em;")),
        attr("onclick", String::from_str(toggle_script_str())),
    ];
    let ul_attrs = vec![attr("class", String::from_str("toc-list"))];
    proof {
        assert(attrs_view(div_attrs@) =~= seq![("id"@, "table-of-contents"@), ("class"@, "table-of-contents"@)]);
        assert(attrs_view(button_attrs@) =~= seq![("class"@, "toggle-btn"@), ("style"@, toggle_style()), ("onclick"@, toggle_script())]);
        assert(attrs_view(ul_attrs@) =~= seq![("class"@, "toc-list"@)]);
        assert(tokens_view(out@) =~= Seq::empty());
    }
    push_token(&mut out, element("div", div_attrs));
    push_token(&mut out, element("button", button_attrs));
    push_token(&mut out, Token::Text(String::from_str("折叠目录 👇")));
    push_token(&mut out, Token::Close);
    push_token(&mut out, element("ul", ul_attrs));
    emit_children(levels, anchors, labels, parents, None, 0, &mut out);
    push_token(&mut out, Token::Close);
    push_token(&mut out, Token::Close);
    proof {
        assert(tokens_view(out@) =~= toc_tokens(levels_view(levels@), strings_view(anchors@), strings_view(labels@)));
    }
    out
}

/// The first position that opens a level-1 heading.
fn find_h1(s: &Vec<Token>) -> (r: Option<usize>)
    ensures
        r matches Some(p) ==> p < s.len() && first_h1(tokens_view(s@), 0) == Some(p as nat),
        r is None ==> first_h1(tokens_view(s@), 0) is None,
{
    let ghost sv = tokens_view(s@);
    let mut i: usize = 0;
    while i < s.len()
        invariant
            sv == tokens_view(s@),
            i <= s.len(),
            first_h1(sv, 0) == first_h1(sv, i as int),
        decreases s.len() - i,
    {
        if token_heading_level(&s[i]) == 1 {
            return Some(i);
        }
        i = i + 1;
    }
    None
}

/// Numbers the headings of a document and adds its table of contents.
///
/// Without headings, or without a content container (class `container`),
/// the document comes back unchanged. Otherwise each heading gets the anchor
/// id `h<level>-<path>`, where the path counts the headings per level and a
/// skipped level counts 0; and when there is a level-1 heading, the nested
/// list of entries is placed right after the first one.
pub fn enable_table_of_contents(document: &Document) -> (r: Document)
    ensures
        r@ == with_toc(document@),
{
    let s = &document.tokens;
    let ghost sv = tokens_view(s@);
    let (numbered, positions, levels, anchors) = number_headings(s);
    proof {
        lemma_headings_len(sv);
    }
    assert(levels@.map_values(|l: u8| l as nat).len() == levels@.len());
    let container = find_class(s, "container");
    if levels.len() == 0 || container.is_none() {
        let mut same: Vec<Token> = Vec::new();
        push_range(&mut same, s, 0, s.len());
        proof {
            assert(tokens_view(same@) =~= sv);
        }
        return Document { tokens: same };
    }
    let first = find_h1(s);
    if container.is_some() && first.is_some() {
        let f = first.unwrap();
        {
            let mut labels: Vec<String> = Vec::new();
            let mut i: usize = 0;
            while i < positions.len()
                invariant
                    sv == tokens_view(s@),
                    i <= positions.len(),
                    labels@.len() == i,
                    first_with_class(sv, "container"@, 0) is Some,
                    first_h1(sv, 0) == Some(f as nat),
                    f < s.len(),
                    heading_levels(sv).len() != 0,
                    positions@.map_values(|q: usize| q as int) == heading_positions(sv),
                    forall|j: int| 0 <= j < heading_positions(sv).len() ==> 0 <= #[trigger] heading_positions(sv)[j] < sv.len(),
                    forall|j: int| 0 <= j < i ==> (#[trigger] labels@[j])@ == trimmed(text_of(sv, positions@[j] as int)),
                decreases positions.len() - i,
            {
                assert(positions@.map_values(|q: usize| q as int)[i as int] == positions@[i as int] as int);
                let text = element_text(s, positions[i]);
                let label = trim_text(text.as_str());
                labels.push(label);
                i = i + 1;
            }
            let parents = crate::outline::toc_parents(&levels);
            let toc = render_toc(&levels, &anchors, &labels, &parents);
            proof {
                let pos = heading_positions(sv);
                assert(strings_view(anchors@) =~= Seq::new(pos.len(), |i: int| anchor_at(sv, pos[i])));
                assert(strings_view(labels@) =~= Seq::new(pos.len(), |i: int| trimmed(text_of(sv, pos[i]))));
                assert(tokens_view(toc@) == toc_of(sv));
            }
            assert(numbered@.len() == tokens_view(numbered@).len());
            let close = find_close(&numbered, f);
            let at = if close < numbered.len() { close + 1 } else { numbered.len() };
            let mut out: Vec<Token> = Vec::new();
            push_range(&mut out, &numbered, 0, at);
            push_range(&mut out, &toc, 0, toc.len());
            push_range(&mut out, &numbered, at, numbered.len());
            proof {
                let s1 = with_anchors(sv);
                assert(heading_level(s1[f as int]) == heading_level(sv[f as int]));
                assert(tokens_view(toc@).subrange(0, toc@.len() as int) =~= tokens_view(toc@));
                assert(tokens_view(out@) =~= s1.take(at as int) + toc_of(sv) + s1.skip(at as int));
                assert(first_with_class(sv, "container"@, 0) is Some);
                assert(first_h1(sv, 0) == Some(f as nat));
                assert(at as int == after_element(s1, f as int));
                assert(heading_levels(sv).len() != 0);
            }
            Document { tokens: out }
        }
    } else {
        Document { tokens: numbered }
    }
}


proof fn lemma_no_heading_levels(s: Seq<TokenView>)
    requires
        forall|p: int| 0 <= p < s.len() ==> heading_level(#[trigger] s[p]) == 0,
    ensures
        heading_levels(s).len() == 0,
    decreases s.len(),
{
    if s.len() > 0 {
        let t = s.drop_last();
        assert forall|p: int| 0 <= p < t.len() implies heading_level(#[trigger] t[p]) == 0 by {
            assert(t[p] == s[p]);
        }
        lemma_no_heading_levels(t);
    }
}

/// A document without headings comes out of the table of contents step
/// unchanged: no anchors, no table of contents.
pub proof fn lemma_no_headings_unchanged(s: Seq<TokenView>)
    requires
        forall|p: int| 0 <= p < s.len() ==> heading_level(#[trigger] s[p]) == 0,
    ensures
        with_toc(s) == s,
{
    lemma_no_heading_levels(s);
}

} // verus!

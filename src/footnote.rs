//! Footnote relocation: every footnote definition of a page moves, in
//! document order, into one block appended to the content container.

use vstd::prelude::*;
use crate::doc::{
    close_of, copy_token, find_class, find_close, first_with_class, lemma_close_from_bounds,
    lemma_first_with_class_bounds, push_range, same_text, token_has_class, tokens_view, Attr,
    Document, Token, TokenView,
};
use crate::toc::open_tag;

verus! {

/// Where a walk over tokens stands.
pub enum ScanMode {
    /// Outside any footnote definition.
    Outside,
    /// Inside a footnote definition, that many elements deep.
    InNote(nat),
}

/// Tokens split into what stays and what moves.
pub struct Scan {
    pub kept: Seq<TokenView>,
    pub moved: Seq<TokenView>,
    pub mode: ScanMode,
}

/// The element depth after token `t`, from depth `d`.
pub open spec fn depth_after(t: TokenView, d: nat) -> nat {
    match t {
        TokenView::Open { .. } => d + 1,
        TokenView::Close => if d > 0 { (d - 1) as nat } else { 0 },
        _ => d,
    }
}

/// The token opens a footnote definition.
pub open spec fn has_class_fd(t: TokenView) -> bool {
    crate::doc::has_class(t, "footnote-definition"@)
}

/// One token of the walk: a footnote definition met outside another moves,
/// with everything inside it; the rest stays.
pub open spec fn scan_step(st: Scan, t: TokenView) -> Scan {
    match st.mode {
        ScanMode::Outside => if has_class_fd(t) {
            Scan { kept: st.kept, moved: st.moved.push(t), mode: ScanMode::InNote(1) }
        } else {
            Scan { kept: st.kept.push(t), moved: st.moved, mode: ScanMode::Outside }
        },
        ScanMode::InNote(d) => Scan {
            kept: st.kept,
            moved: st.moved.push(t),
            mode: if depth_after(t, d) == 0 { ScanMode::Outside } else { ScanMode::InNote(depth_after(t, d)) },
        },
    }
}

/// The walk over a whole token sequence.
pub open spec fn scan(s: Seq<TokenView>) -> Scan
    decreases s.len(),
{
    if s.len() == 0 {
        Scan { kept: Seq::empty(), moved: Seq::empty(), mode: ScanMode::Outside }
    } else {
        scan_step(scan(s.drop_last()), s.last())
    }
}

/// The start of the block that receives the footnote definitions.
pub open spec fn block_open() -> TokenView {
    open_tag("div"@, seq![("style"@, "margin: 80px"@)])
}

/// The tokens are whole footnote definitions and nothing else.
pub open spec fn only_notes(x: Seq<TokenView>) -> bool {
    scan(x).kept.len() == 0 && scan(x).mode == ScanMode::Outside
}

/// The first position `q` from `i` on (before `e`) that opens a block of
/// footnote definitions closing just before `e`: the container's last child
/// when `e` is where the container closes.
pub open spec fn trailing_block(s: Seq<TokenView>, i: int, e: int) -> Option<nat>
    decreases e - i,
{
    if i < 0 || i >= e || e > s.len() {
        None
    } else if s[i] == block_open() && close_of(s, i) == e - 1 && only_notes(s.subrange(i + 1, e - 1)) {
        Some(i as nat)
    } else {
        trailing_block(s, i + 1, e)
    }
}

/// The document after relocation. With a content container at `c`: the
/// footnote definitions before the container, inside it (but for a block of
/// already relocated ones that ends it) and after it leave their places, and
/// follow the container's content, in document order, in one new block, or
/// at the end of the block that already ends the container.
/// Unchanged without a container, without a definition to move, or when the
/// container itself lies inside a footnote definition.
pub open spec fn relocated(s: Seq<TokenView>) -> Seq<TokenView> {
    match first_with_class(s, "container"@, 0) {
        None => s,
        Some(c) => {
            let cc = close_of(s, c as int);
            let q = match trailing_block(s, c as int + 1, cc) {
                Some(q) => q as int,
                None => cc,
            };
            let a = scan(s.take(c as int));
            let b = scan(s.subrange(c as int + 1, q));
            let z = scan(s.skip(cc));
            let moved = a.moved + b.moved + z.moved;
            let opening = match trailing_block(s, c as int + 1, cc) {
                Some(_) => s.subrange(q, cc - 1),
                None => seq![block_open()],
            };
            if a.mode is InNote || moved.len() == 0 {
                s
            } else {
                a.kept + seq![s[c as int]] + b.kept + opening + moved + seq![TokenView::Close] + z.kept
            }
        },
    }
}

enum Mode {
    Outside,
    InNote(usize),
}

spec fn mode_view(m: Mode) -> ScanMode {
    match m {
        Mode::Outside => ScanMode::Outside,
        Mode::InNote(d) => ScanMode::InNote(d as nat),
    }
}

fn next_depth(t: &Token, d: usize) -> (r: usize)
    requires
        d < usize::MAX,
    ensures
        r as nat == depth_after(t@, d as nat),
{
    match t {
        Token::Open { .. } => d + 1,
        Token::Close => if d > 0 { d - 1 } else { 0 },
        _ => d,
    }
}

/// Walks `s[from..to]`, appending what stays to `kept` and what moves to
/// `moved`; tells whether the walk ends inside a footnote definition.
fn scan_into(s: &Vec<Token>, from: usize, to: usize, kept: &mut Vec<Token>, moved: &mut Vec<Token>) -> (in_note: bool)
    requires
        from <= to <= s.len(),
    ensures
        tokens_view(final(kept)@) == tokens_view(old(kept)@) + scan(tokens_view(s@).subrange(from as int, to as int)).kept,
        tokens_view(final(moved)@) == tokens_view(old(moved)@) + scan(tokens_view(s@).subrange(from as int, to as int)).moved,
        in_note == scan(tokens_view(s@).subrange(from as int, to as int)).mode is InNote,
{
    let ghost sv = tokens_view(s@);
    let ghost k0 = tokens_view(kept@);
    let ghost m0 = tokens_view(moved@);
    let mut mode = Mode::Outside;
    let mut i = from;
    proof {
        assert(sv.subrange(from as int, from as int) =~= Seq::<TokenView>::empty());
        assert(k0 =~= k0 + Seq::<TokenView>::empty());
        assert(m0 =~= m0 + Seq::<TokenView>::empty());
    }
    while i < to
        invariant
            sv == tokens_view(s@),
            from <= i <= to <= s.len(),
            tokens_view(kept@) == k0 + scan(sv.subrange(from as int, i as int)).kept,
            tokens_view(moved@) == m0 + scan(sv.subrange(from as int, i as int)).moved,
            mode_view(mode) == scan(sv.subrange(from as int, i as int)).mode,
            match mode {
                Mode::Outside => true,
                Mode::InNote(d) => d <= i,
            },
        decreases to - i,
    {
        proof {
            assert(sv.subrange(from as int, i + 1).drop_last() =~= sv.subrange(from as int, i as int));
            assert(sv.subrange(from as int, i + 1).last() == sv[i as int]);
        }
        let t = &s[i];
        let ghost kp = tokens_view(kept@);
        let ghost mp = tokens_view(moved@);
        match mode {
            Mode::Outside => {
                if token_has_class(t, "footnote-definition") {
                    moved.push(copy_token(t));
                    mode = Mode::InNote(1);
                    proof { assert(tokens_view(moved@) =~= mp.push(t@)); }
                } else {
                    kept.push(copy_token(t));
                    proof { assert(tokens_view(kept@) =~= kp.push(t@)); }
                }
            },
            Mode::InNote(d) => {
                moved.push(copy_token(t));
                proof { assert(tokens_view(moved@) =~= mp.push(t@)); }
                let nd = next_depth(t, d);
                mode = if nd == 0 { Mode::Outside } else { Mode::InNote(nd) };
            },
        }
        proof {
            let st = scan(sv.subrange(from as int, i + 1));
            assert(tokens_view(kept@) =~= k0 + st.kept);
            assert(tokens_view(moved@) =~= m0 + st.moved);
        }
        i = i + 1;
    }
    match mode {
        Mode::Outside => false,
        Mode::InNote(_) => true,
    }
}

/// Whether the token is the start of a footnote block.
fn is_block_open(t: &Token) -> (r: bool)
    ensures
        r == (t@ == block_open()),
{
    match t {
        Token::Open { name, attrs } => {
            proof { assert(crate::doc::attrs_view(attrs@).len() == attrs@.len()); }
            if !same_text(name.as_str(), "div") || attrs.len() != 1 {
                return false;
            }
            let ok = same_text(attrs[0].name.as_str(), "style") && same_text(attrs[0].value.as_str(), "margin: 80px");
            proof {
                let av = crate::doc::attrs_view(attrs@);
                if ok {
                    assert(av =~= seq![("style"@, "margin: 80px"@)]);
                } else {
                    assert(av[0] == (attrs@[0].name@, attrs@[0].value@));
                    assert(seq![("style"@, "margin: 80px"@)][0] == ("style"@, "margin: 80px"@));
                    assert(av != seq![("style"@, "margin: 80px"@)]);
                }
            }
            ok
        },
        _ => false,
    }
}

/// The start of the block of relocated footnotes that ends the container
/// opened at `c` and closed at `cc`, if there is one.
fn find_trailing_block(s: &Vec<Token>, c: usize, cc: usize) -> (r: Option<usize>)
    requires
        c < cc <= s.len(),
    ensures
        match r {
            Some(q) => trailing_block(tokens_view(s@), c + 1, cc as int) == Some(q as nat) && c < q < cc,
            None => trailing_block(tokens_view(s@), c + 1, cc as int) is None,
        },
{
    let ghost sv = tokens_view(s@);
    let mut q = c + 1;
    while q < cc
        invariant
            sv == tokens_view(s@),
            c < q <= cc <= s.len(),
            trailing_block(sv, c + 1, cc as int) == trailing_block(sv, q as int, cc as int),
        decreases cc - q,
    {
        if is_block_open(&s[q]) {
            let close = find_close(s, q);
            if close == cc - 1 {
                let mut k: Vec<Token> = Vec::new();
                let mut m: Vec<Token> = Vec::new();
                let in_note = scan_into(s, q + 1, close, &mut k, &mut m);
                proof {
                    assert(tokens_view(k@) =~= Seq::<TokenView>::empty() + scan(sv.subrange(q + 1, close as int)).kept);
                }
                if k.len() == 0 && !in_note {
                    return Some(q);
                }
            }
        }
        q = q + 1;
    }
    None
}

/// Moves every footnote definition of the page, in document order, into one
/// block appended to the content container.
pub fn process_footnote(document: &Document) -> (r: Document)
    ensures
        r@ == relocated(document@),
{
    let s = &document.tokens;
    let ghost sv = tokens_view(s@);
    let mut out: Vec<Token> = Vec::new();
    let c = match find_class(s, "container") {
        None => {
            push_range(&mut out, s, 0, s.len());
            proof {
                assert(tokens_view(out@) =~= sv);
            }
            return Document { tokens: out };
        },
        Some(c) => c,
    };
    let cc = find_close(s, c);
    let found = find_trailing_block(s, c, cc);
    let q = match found {
        Some(q) => q,
        None => cc,
    };
    let mut moved: Vec<Token> = Vec::new();
    let mut kept_a: Vec<Token> = Vec::new();
    let mut kept_b: Vec<Token> = Vec::new();
    let mut kept_z: Vec<Token> = Vec::new();
    let a_in_note = scan_into(s, 0, c, &mut kept_a, &mut moved);
    scan_into(s, c + 1, q, &mut kept_b, &mut moved);
    scan_into(s, cc, s.len(), &mut kept_z, &mut moved);
    let ghost a = scan(sv.take(c as int));
    let ghost b = scan(sv.subrange(c + 1, q as int));
    let ghost z = scan(sv.skip(cc as int));
    proof {
        assert(sv.subrange(0, c as int) =~= sv.take(c as int));
        assert(sv.subrange(cc as int, sv.len() as int) =~= sv.skip(cc as int));
        assert(tokens_view(moved@) =~= a.moved + b.moved + z.moved);
        assert(tokens_view(kept_a@) =~= a.kept);
        assert(tokens_view(kept_b@) =~= b.kept);
        assert(tokens_view(kept_z@) =~= z.kept);
    }
    if a_in_note || moved.len() == 0 {
        push_range(&mut out, s, 0, s.len());
        proof {
            assert(tokens_view(out@) =~= sv);
        }
        return Document { tokens: out };
    }
    push_range(&mut out, &kept_a, 0, kept_a.len());
    push_range(&mut out, s, c, c + 1);
    push_range(&mut out, &kept_b, 0, kept_b.len());
    let ghost opening = if q < cc { sv.subrange(q as int, cc - 1) } else { seq![block_open()] };
    let ghost before_block = out@;
    if q < cc {
        push_range(&mut out, s, q, cc - 1);
    } else {
        let block_attrs = vec![Attr { name: String::from_str("style"), value: String::from_str("margin: 80px") }];
        proof {
            assert(crate::doc::attrs_view(block_attrs@) =~= seq![("style"@, "margin: 80px"@)]);
        }
        out.push(Token::Open { name: String::from_str("div"), attrs: block_attrs });
    }
    proof {
        assert(tokens_view(out@) =~= tokens_view(before_block) + opening);
    }
    push_range(&mut out, &moved, 0, moved.len());
    let ghost before_close = out@;
    out.push(Token::Close);
    proof {
        assert(tokens_view(out@) =~= tokens_view(before_close).push(TokenView::Close));
    }
    push_range(&mut out, &kept_z, 0, kept_z.len());
    proof {
        assert(tokens_view(kept_a@).subrange(0, kept_a@.len() as int) =~= a.kept);
        assert(tokens_view(kept_b@).subrange(0, kept_b@.len() as int) =~= b.kept);
        assert(tokens_view(kept_z@).subrange(0, kept_z@.len() as int) =~= z.kept);
        assert(tokens_view(moved@).subrange(0, moved@.len() as int) =~= a.moved + b.moved + z.moved);
        assert(sv.subrange(c as int, c + 1) =~= seq![sv[c as int]]);
        assert(tokens_view(out@) =~= a.kept + seq![sv[c as int]] + b.kept + opening
            + (a.moved + b.moved + z.moved) + seq![TokenView::Close] + z.kept);
    }
    Document { tokens: out }
}

proof fn lemma_scan_without_notes(s: Seq<TokenView>)
    requires
        forall|p: int| 0 <= p < s.len() ==> !has_class_fd(#[trigger] s[p]),
    ensures
        scan(s).moved.len() == 0,
        scan(s).mode == ScanMode::Outside,
    decreases s.len(),
{
    if s.len() > 0 {
        let t = s.drop_last();
        assert forall|p: int| 0 <= p < t.len() implies !has_class_fd(#[trigger] t[p]) by {
            assert(t[p] == s[p]);
        }
        lemma_scan_without_notes(t);
        assert(!has_class_fd(s[s.len() - 1]));
    }
}

/// A page without footnote definitions comes out of relocation unchanged.
pub proof fn lemma_no_footnotes_unchanged(s: Seq<TokenView>)
    requires
        forall|p: int| 0 <= p < s.len() ==> !has_class_fd(#[trigger] s[p]),
    ensures
        relocated(s) == s,
{
    match first_with_class(s, "container"@, 0) {
        None => {},
        Some(c) => {
            lemma_first_with_class_bounds(s, "container"@, 0);
            lemma_close_from_bounds(s, c as int + 1, 1);
            let cc = close_of(s, c as int);
            lemma_trailing_block_bounds(s, c as int + 1, cc);
            let q = match trailing_block(s, c as int + 1, cc) {
                Some(q) => q as int,
                None => cc,
            };
            let x = s.take(c as int);
            let y = s.subrange(c as int + 1, q);
            let z = s.skip(cc);
            assert forall|p: int| 0 <= p < x.len() implies !has_class_fd(#[trigger] x[p]) by {
                assert(x[p] == s[p]);
            }
            assert forall|p: int| 0 <= p < y.len() implies !has_class_fd(#[trigger] y[p]) by {
                assert(y[p] == s[c + 1 + p]);
            }
            assert forall|p: int| 0 <= p < z.len() implies !has_class_fd(#[trigger] z[p]) by {
                assert(z[p] == s[cc + p]);
            }
            lemma_scan_without_notes(x);
            lemma_scan_without_notes(y);
            lemma_scan_without_notes(z);
        },
    }
}

proof fn lemma_trailing_block_bounds(s: Seq<TokenView>, i: int, e: int)
    ensures
        trailing_block(s, i, e) matches Some(q) ==> i <= q < e,
    decreases e - i,
{
    if !(i < 0 || i >= e || e > s.len()) {
        lemma_trailing_block_bounds(s, i + 1, e);
    }
}

/// The positions, in the walked content, of the tokens that move.
pub open spec fn moved_positions(x: Seq<TokenView>) -> Seq<int>
    decreases x.len(),
{
    if x.len() == 0 {
        Seq::empty()
    } else if scan(x).moved.len() > scan(x.drop_last()).moved.len() {
        moved_positions(x.drop_last()).push(x.len() - 1)
    } else {
        moved_positions(x.drop_last())
    }
}

/// Relocation keeps document order and copies nothing: each moved token is
/// the content's token at a strictly increasing position, and every token of
/// the content is either kept or moved, once.
pub proof fn lemma_moved_in_order(x: Seq<TokenView>)
    ensures
        scan(x).kept.len() + scan(x).moved.len() == x.len(),
        moved_positions(x).len() == scan(x).moved.len(),
        forall|j: int| 0 <= j < moved_positions(x).len() ==> 0 <= #[trigger] moved_positions(x)[j] < x.len()
            && scan(x).moved[j] == x[moved_positions(x)[j]],
        forall|i: int, j: int| 0 <= i < j < moved_positions(x).len() ==> #[trigger] moved_positions(x)[i] < #[trigger] moved_positions(x)[j],
    decreases x.len(),
{
    if x.len() > 0 {
        let y = x.drop_last();
        lemma_moved_in_order(y);
        let t = x.last();
        assert(scan(x) == scan_step(scan(y), t));
        let py = moved_positions(y);
        let px = moved_positions(x);
        assert forall|j: int| 0 <= j < py.len() implies y[#[trigger] py[j]] == x[py[j]] by {}
        if scan(x).moved.len() > scan(y).moved.len() {
            assert(px == py.push(x.len() - 1));
            assert(scan(x).moved == scan(y).moved.push(t));
        } else {
            assert(scan(x).moved == scan(y).moved);
        }
    }
}

} // verus!

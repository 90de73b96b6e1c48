//! An HTML document held as the sequence of its nodes in document order: an
//! element is an `Open` token, its content, and a matching `Close` token.

use vstd::prelude::*;

verus! {

/// An attribute of an element.
#[derive(Clone, Debug, PartialEq, Eq)]
pub struct Attr {
    pub name: String,
    pub value: String,
}

/// One step of a document walked in order.
#[derive(Clone, Debug, PartialEq, Eq)]
pub enum Token {
    /// The start of an element, with its attributes.
    Open { name: String, attrs: Vec<Attr> },
    /// The end of the innermost element still open.
    Close,
    Text(String),
    Comment(String),
    Doctype { name: String, public_id: String, system_id: String },
}

/// A token with its strings seen as character sequences.
pub enum TokenView {
    Open { name: Seq<char>, attrs: Seq<(Seq<char>, Seq<char>)> },
    Close,
    Text(Seq<char>),
    Comment(Seq<char>),
    Doctype { name: Seq<char>, public_id: Seq<char>, system_id: Seq<char> },
}

/// A parsed document.
#[derive(Clone, Debug, PartialEq, Eq)]
pub struct Document {
    pub tokens: Vec<Token>,
}

pub open spec fn attrs_view(a: Seq<Attr>) -> Seq<(Seq<char>, Seq<char>)> {
    a.map_values(|x: Attr| (x.name@, x.value@))
}

impl View for Token {
    type V = TokenView;

    open spec fn view(&self) -> TokenView {
        match self {
            Token::Open { name, attrs } => TokenView::Open { name: name@, attrs: attrs_view(attrs@) },
            Token::Close => TokenView::Close,
            Token::Text(t) => TokenView::Text(t@),
            Token::Comment(t) => TokenView::Comment(t@),
            Token::Doctype { name, public_id, system_id } => TokenView::Doctype {
                name: name@,
                public_id: public_id@,
                system_id: system_id@,
            },
        }
    }
}

pub open spec fn tokens_view(s: Seq<Token>) -> Seq<TokenView> {
    s.map_values(|t: Token| t@)
}

impl View for Document {
    type V = Seq<TokenView>;

    open spec fn view(&self) -> Seq<TokenView> {
        tokens_view(self.tokens@)
    }
}

/// The value of the first attribute called `n`.
pub open spec fn attr_value(attrs: Seq<(Seq<char>, Seq<char>)>, n: Seq<char>) -> Option<Seq<char>>
    decreases attrs.len(),
{
    if attrs.len() == 0 {
        None
    } else if attrs[0].0 == n {
        Some(attrs[0].1)
    } else {
        attr_value(attrs.drop_first(), n)
    }
}

/// HTML's whitespace between class names.
pub open spec fn is_html_space(c: char) -> bool {
    c == ' ' || c == '\t' || c == '\n' || c == '\x0C' || c == '\r'
}

/// `c` occurs in `v` as a whole whitespace-separated word.
pub open spec fn has_word(v: Seq<char>, c: Seq<char>) -> bool {
    exists|i: int|
        0 <= i && i + c.len() <= v.len() && #[trigger] v.subrange(i, i + c.len()) == c && (i == 0
            || is_html_space(v[i - 1])) && (i + c.len() == v.len() || is_html_space(v[i + c.len()]))
}

/// The token opens an element whose class list holds `cls`.
pub open spec fn has_class(t: TokenView, cls: Seq<char>) -> bool {
    match t {
        TokenView::Open { attrs, .. } => match attr_value(attrs, "class"@) {
            Some(v) => has_word(v, cls),
            None => false,
        },
        _ => false,
    }
}

/// The heading level (1 to 6) of an element name, 0 if it is no heading.
pub open spec fn level_of_name(name: Seq<char>) -> nat {
    if name.len() == 2 && name[0] == 'h' {
        if name[1] == '1' { 1 }
        else if name[1] == '2' { 2 }
        else if name[1] == '3' { 3 }
        else if name[1] == '4' { 4 }
        else if name[1] == '5' { 5 }
        else if name[1] == '6' { 6 }
        else { 0 }
    } else {
        0
    }
}

/// The heading level of a token, 0 for all but the start of a heading.
pub open spec fn heading_level(t: TokenView) -> nat {
    match t {
        TokenView::Open { name, .. } => level_of_name(name),
        _ => 0,
    }
}

/// Starting inside `d` open elements at position `i`, the position of the
/// token that closes the outermost of them (the length if none does).
pub open spec fn close_from(s: Seq<TokenView>, i: int, d: nat) -> int
    decreases s.len() - i,
{
    if i < 0 || i >= s.len() {
        s.len() as int
    } else {
        match s[i] {
            TokenView::Open { .. } => close_from(s, i + 1, d + 1),
            TokenView::Close => if d <= 1 { i } else { close_from(s, i + 1, (d - 1) as nat) },
            _ => close_from(s, i + 1, d),
        }
    }
}

/// The position of the token that closes the element opened at `p`.
pub open spec fn close_of(s: Seq<TokenView>, p: int) -> int {
    close_from(s, p + 1, 1)
}

/// The text inside `d` open elements from position `i` on, up to where they close.
pub open spec fn text_from(s: Seq<TokenView>, i: int, d: nat) -> Seq<char>
    decreases s.len() - i,
{
    if i < 0 || i >= s.len() {
        Seq::empty()
    } else {
        match s[i] {
            TokenView::Open { .. } => text_from(s, i + 1, d + 1),
            TokenView::Close => if d <= 1 { Seq::empty() } else { text_from(s, i + 1, (d - 1) as nat) },
            TokenView::Text(t) => t + text_from(s, i + 1, d),
            _ => text_from(s, i + 1, d),
        }
    }
}

/// All text inside the element opened at `p`, in document order.
pub open spec fn text_of(s: Seq<TokenView>, p: int) -> Seq<char> {
    text_from(s, p + 1, 1)
}

/// The first position at or after `i` whose token opens an element with class `cls`.
pub open spec fn first_with_class(s: Seq<TokenView>, cls: Seq<char>, i: int) -> Option<nat>
    decreases s.len() - i,
{
    if i < 0 || i >= s.len() {
        None
    } else if has_class(s[i], cls) {
        Some(i as nat)
    } else {
        first_with_class(s, cls, i + 1)
    }
}

pub fn copy_attrs(a: &Vec<Attr>) -> (r: Vec<Attr>)
    ensures
        attrs_view(r@) == attrs_view(a@),
{
    let mut r: Vec<Attr> = Vec::new();
    let mut i: usize = 0;
    while i < a.len()
        invariant
            i <= a.len(),
            r@.len() == i,
            attrs_view(r@) == attrs_view(a@.take(i as int)),
        decreases a.len() - i,
    {
        let ghost prev = r@;
        r.push(Attr { name: a[i].name.clone(), value: a[i].value.clone() });
        proof {
            assert(r@ == prev.push(r@[i as int]));
            assert(attrs_view(r@) =~= attrs_view(a@.take(i + 1))) by {
                assert forall|k: int| 0 <= k < i + 1 implies #[trigger] attrs_view(r@)[k] == attrs_view(a@.take(i + 1))[k] by {
                    if k < i {
                        assert(attrs_view(r@)[k] == attrs_view(prev)[k]);
                        assert(attrs_view(a@.take(i as int))[k] == attrs_view(a@.take(i + 1))[k]);
                    }
                }
            }
        }
        i = i + 1;
    }
    proof {
        assert(a@.take(a.len() as int) =~= a@);
    }
    r
}

pub fn copy_token(t: &Token) -> (r: Token)
    ensures
        r@ == t@,
{
    match t {
        Token::Open { name, attrs } => Token::Open { name: name.clone(), attrs: copy_attrs(attrs) },
        Token::Close => Token::Close,
        Token::Text(x) => Token::Text(x.clone()),
        Token::Comment(x) => Token::Comment(x.clone()),
        Token::Doctype { name, public_id, system_id } => Token::Doctype {
            name: name.clone(),
            public_id: public_id.clone(),
            system_id: system_id.clone(),
        },
    }
}

/// Appends copies of `s[from..to]` to `out`.
pub fn push_range(out: &mut Vec<Token>, s: &Vec<Token>, from: usize, to: usize)
    requires
        from <= to <= s.len(),
    ensures
        tokens_view(final(out)@) == tokens_view(old(out)@) + tokens_view(s@).subrange(
            from as int,
            to as int,
        ),
{
    let mut i = from;
    while i < to
        invariant
            from <= i <= to <= s.len(),
            out@.len() == old(out)@.len() + i - from,
            tokens_view(out@) == tokens_view(old(out)@) + tokens_view(s@).subrange(from as int, i as int),
        decreases to - i,
    {
        let t = copy_token(&s[i]);
        let ghost prev = out@;
        out.push(t);
        proof {
            assert(out@ == prev.push(out@[out@.len() - 1]));
            assert(tokens_view(out@) =~= tokens_view(prev).push(s@[i as int]@));
            assert(tokens_view(out@) =~= tokens_view(old(out)@) + tokens_view(s@).subrange(
                from as int,
                i + 1,
            ));
        }
        i = i + 1;
    }
}

/// Two strings hold the same characters.
pub fn same_text(a: &str, b: &str) -> (r: bool)
    ensures
        r == (a@ == b@),
{
    let n = a.unicode_len();
    if n != b.unicode_len() {
        return false;
    }
    let mut i: usize = 0;
    while i < n
        invariant
            n == a@.len() == b@.len(),
            i <= n,
            a@.take(i as int) == b@.take(i as int),
        decreases n - i,
    {
        if a.get_char(i) != b.get_char(i) {
            assert(a@.take(i + 1)[i as int] != b@.take(i + 1)[i as int]);
            return false;
        }
        assert(a@.take(i + 1) =~= b@.take(i + 1));
        i = i + 1;
    }
    assert(a@ =~= a@.take(n as int));
    assert(b@ =~= b@.take(n as int));
    true
}

fn is_space_char(c: char) -> (r: bool)
    ensures
        r == is_html_space(c),
{
    c == ' ' || c == '\t' || c == '\n' || c == '\x0C' || c == '\r'
}

/// `cls` occurs in `v` as a whole whitespace-separated word.
pub fn contains_word(v: &str, cls: &str) -> (r: bool)
    ensures
        r == has_word(v@, cls@),
{
    let n = v.unicode_len();
    let m = cls.unicode_len();
    if m > n {
        return false;
    }
    let mut i: usize = 0;
    while i <= n - m
        invariant
            n == v@.len(),
            m == cls@.len(),
            m <= n,
            i <= n - m + 1,
            forall|k: int| 0 <= k < i ==> !(#[trigger] v@.subrange(k, k + m) == cls@ && (k == 0
                || is_html_space(v@[k - 1])) && (k + m == n || is_html_space(v@[k + m]))),
        decreases n - m + 1 - i,
    {
        let mut j: usize = 0;
        let mut same = true;
        assert(v@.subrange(i as int, i as int) =~= cls@.take(0));
        while j < m
            invariant
                n == v@.len(),
                m == cls@.len(),
                i + m <= n,
                j <= m,
                same == (v@.subrange(i as int, i + j) == cls@.take(j as int)),
            decreases m - j,
        {
            if same && v.get_char(i + j) != cls.get_char(j) {
                same = false;
                assert(v@.subrange(i as int, i + j + 1)[j as int] != cls@.take(j + 1)[j as int]);
            } else if same {
                assert(v@.subrange(i as int, i + j + 1) =~= cls@.take(j + 1));
            } else {
                assert(v@.subrange(i as int, i + j) =~= v@.subrange(i as int, i + j + 1).take(j as int));
                assert(cls@.take(j as int) =~= cls@.take(j + 1).take(j as int));
            }
            j = j + 1;
        }
        assert(cls@.take(m as int) =~= cls@);
        let before = i == 0 || is_space_char(v.get_char(i - 1));
        let after = i + m == n || is_space_char(v.get_char(i + m));
        if same && before && after {
            return true;
        }
        if i == n - m {
            return false;
        }
        i = i + 1;
    }
    false
}

/// The value of the first attribute called `n`.
pub fn find_attr<'a>(attrs: &'a Vec<Attr>, n: &str) -> (r: Option<&'a String>)
    ensures
        match r {
            Some(v) => attr_value(attrs_view(attrs@), n@) == Some(v@),
            None => attr_value(attrs_view(attrs@), n@) is None,
        },
{
    let mut i: usize = 0;
    assert(attrs_view(attrs@).skip(0) =~= attrs_view(attrs@));
    while i < attrs.len()
        invariant
            i <= attrs.len(),
            attr_value(attrs_view(attrs@), n@) == attr_value(attrs_view(attrs@).skip(i as int), n@),
        decreases attrs.len() - i,
    {
        assert(attrs_view(attrs@).skip(i as int).drop_first() =~= attrs_view(attrs@).skip(i + 1));
        if same_text(attrs[i].name.as_str(), n) {
            return Some(&attrs[i].value);
        }
        i = i + 1;
    }
    None
}

/// Whether the token opens an element whose class list holds `cls`.
pub fn token_has_class(t: &Token, cls: &str) -> (r: bool)
    ensures
        r == has_class(t@, cls@),
{
    match t {
        Token::Open { attrs, .. } => {
            match find_attr(attrs, "class") {
                Some(v) => contains_word(v.as_str(), cls),
                None => false,
            }
        },
        _ => false,
    }
}

/// The heading level of a token (1 to 6), 0 for all but the start of a heading.
pub fn token_heading_level(t: &Token) -> (r: u8)
    ensures
        r as nat == heading_level(t@),
        r <= 6,
{
    match t {
        Token::Open { name, .. } => {
            let s = name.as_str();
            if s.unicode_len() != 2 || s.get_char(0) != 'h' {
                return 0;
            }
            let c = s.get_char(1);
            if c == '1' { 1 }
            else if c == '2' { 2 }
            else if c == '3' { 3 }
            else if c == '4' { 4 }
            else if c == '5' { 5 }
            else if c == '6' { 6 }
            else { 0 }
        },
        _ => 0,
    }
}

/// The position of the token that closes the element opened at `p`.
pub fn find_close(s: &Vec<Token>, p: usize) -> (r: usize)
    requires
        p < s.len(),
    ensures
        r as int == close_of(tokens_view(s@), p as int),
        p < r <= s.len(),
{
    let ghost sv = tokens_view(s@);
    let mut i = p + 1;
    let mut d: usize = 1;
    while i < s.len()
        invariant
            sv == tokens_view(s@),
            p < i <= s.len(),
            1 <= d <= i - p,
            close_of(sv, p as int) == close_from(sv, i as int, d as nat),
        decreases s.len() - i,
    {
        match &s[i] {
            Token::Open { .. } => {
                d = d + 1;
            },
            Token::Close => {
                if d == 1 {
                    return i;
                }
                d = d - 1;
            },
            _ => {},
        }
        i = i + 1;
    }
    i
}

/// All text inside the element opened at `p`, in document order.
pub fn element_text(s: &Vec<Token>, p: usize) -> (r: String)
    requires
        p < s.len(),
    ensures
        r@ == text_of(tokens_view(s@), p as int),
{
    let ghost sv = tokens_view(s@);
    let mut out = String::new();
    let mut i = p + 1;
    let mut d: usize = 1;
    while i < s.len()
        invariant
            sv == tokens_view(s@),
            p < i <= s.len(),
            1 <= d <= i - p,
            text_of(sv, p as int) == out@ + text_from(sv, i as int, d as nat),
        decreases s.len() - i,
    {
        match &s[i] {
            Token::Open { .. } => {
                d = d + 1;
            },
            Token::Close => {
                if d == 1 {
                    return out;
                }
                d = d - 1;
            },
            Token::Text(t) => {
                let ghost prev = out@;
                out.append(t.as_str());
                proof {
                    assert(out@ + text_from(sv, i + 1, d as nat) =~= prev + text_from(sv, i as int, d as nat));
                }
            },
            _ => {},
        }
        i = i + 1;
    }
    proof {
        assert(out@ =~= out@ + Seq::<char>::empty());
    }
    out
}

/// The first position whose token opens an element with class `cls`.
pub fn find_class(s: &Vec<Token>, cls: &str) -> (r: Option<usize>)
    ensures
        r matches Some(p) ==> p < s.len() && first_with_class(tokens_view(s@), cls@, 0) == Some(p as nat),
        r is None ==> first_with_class(tokens_view(s@), cls@, 0) is None,
{
    let ghost sv = tokens_view(s@);
    let mut i: usize = 0;
    while i < s.len()
        invariant
            sv == tokens_view(s@),
            i <= s.len(),
            first_with_class(sv, cls@, 0) == first_with_class(sv, cls@, i as int),
        decreases s.len() - i,
    {
        if token_has_class(&s[i], cls) {
            return Some(i);
        }
        i = i + 1;
    }
    None
}


/// The closing position lies between the start of the walk and the end.
pub proof fn lemma_close_from_bounds(s: Seq<TokenView>, i: int, d: nat)
    requires
        0 <= i <= s.len(),
    ensures
        i <= close_from(s, i, d) <= s.len(),
    decreases s.len() - i,
{
    if i < s.len() {
        match s[i] {
            TokenView::Open { .. } => lemma_close_from_bounds(s, i + 1, d + 1),
            TokenView::Close => if d > 1 { lemma_close_from_bounds(s, i + 1, (d - 1) as nat) },
            _ => lemma_close_from_bounds(s, i + 1, d),
        }
    }
}

/// A position found by a class search lies inside the document.
pub proof fn lemma_first_with_class_bounds(s: Seq<TokenView>, cls: Seq<char>, i: int)
    ensures
        first_with_class(s, cls, i) matches Some(p) ==> i <= p < s.len() && has_class(s[p as int], cls),
    decreases s.len() - i,
{
    if 0 <= i < s.len() && !has_class(s[i], cls) {
        lemma_first_with_class_bounds(s, cls, i + 1);
    }
}

} // verus!

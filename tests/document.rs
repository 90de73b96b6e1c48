use mdsite::doc::{Attr, Document, Token};
use mdsite::footnote::process_footnote;
use mdsite::outline::toc_parents;
use mdsite::page::post_process;
use mdsite::toc::enable_table_of_contents;

fn open(name: &str, attrs: &[(&str, &str)]) -> Token {
    Token::Open {
        name: name.to_string(),
        attrs: attrs
            .iter()
            .map(|(n, v)| Attr { name: n.to_string(), value: v.to_string() })
            .collect(),
    }
}

fn text(s: &str) -> Token {
    Token::Text(s.to_string())
}

fn heading(level: u8, label: &str) -> Vec<Token> {
    vec![open(&format!("h{}", level), &[]), text(label), Token::Close]
}

fn page_with_headings(levels: &[u8]) -> Document {
    let mut tokens = vec![open("main", &[("class", "container")])];
    for (i, l) in levels.iter().enumerate() {
        tokens.extend(heading(*l, &format!(" T{} ", i)));
        tokens.extend(vec![open("p", &[]), text("body"), Token::Close]);
    }
    tokens.push(Token::Close);
    Document { tokens }
}

fn attr_of(t: &Token, name: &str) -> Option<String> {
    match t {
        Token::Open { attrs, .. } => attrs.iter().find(|a| a.name == name).map(|a| a.value.clone()),
        _ => None,
    }
}

/// The anchor ids of the headings, in order.
fn heading_ids(doc: &Document) -> Vec<String> {
    let mut ids = Vec::new();
    let mut in_toc = 0usize;
    for t in &doc.tokens {
        match t {
            Token::Open { name, .. } => {
                if in_toc > 0 || attr_of(t, "id").as_deref() == Some("table-of-contents") {
                    in_toc += 1;
                } else if name.len() == 2 && name.starts_with('h') {
                    ids.push(attr_of(t, "id").unwrap_or_default());
                }
            }
            Token::Close => {
                if in_toc > 0 {
                    in_toc -= 1;
                }
            }
            _ => {}
        }
    }
    ids
}

/// For each link of the table of contents: its list depth, target and label.
fn toc_outline(doc: &Document) -> Vec<(usize, String, String)> {
    let mut out = Vec::new();
    let mut stack: Vec<String> = Vec::new();
    let mut pending: Option<(usize, String)> = None;
    for t in &doc.tokens {
        match t {
            Token::Open { name, .. } => {
                if name == "a" && stack.iter().any(|n| n == "ul") {
                    let depth = stack.iter().filter(|n| n.as_str() == "ul").count();
                    pending = Some((depth, attr_of(t, "href").unwrap()));
                }
                stack.push(name.clone());
            }
            Token::Close => {
                stack.pop();
            }
            Token::Text(s) => {
                if let Some((d, h)) = pending.take() {
                    out.push((d, h, s.clone()));
                }
            }
            _ => {}
        }
    }
    out
}

#[test]
fn level_skip_numbers_with_zero() {
    let doc = page_with_headings(&[1, 1, 3]);
    let r = enable_table_of_contents(&doc);
    assert_eq!(heading_ids(&r), vec!["h1-1", "h1-2", "h3-2.0.1"]);
}

#[test]
fn toc_links_and_trimmed_labels() {
    let doc = page_with_headings(&[1, 1, 3]);
    let r = enable_table_of_contents(&doc);
    assert_eq!(
        toc_outline(&r),
        vec![
            (1, "#h1-1".to_string(), "T0".to_string()),
            (1, "#h1-2".to_string(), "T1".to_string()),
            (2, "#h3-2.0.1".to_string(), "T2".to_string()),
        ]
    );
}

#[test]
fn toc_nesting_follows_headings() {
    let doc = page_with_headings(&[1, 2, 2, 1, 2, 3]);
    let r = enable_table_of_contents(&doc);
    let depths: Vec<usize> = toc_outline(&r).iter().map(|e| e.0).collect();
    assert_eq!(depths, vec![1, 2, 2, 1, 2, 3]);
    let targets: Vec<String> = toc_outline(&r).into_iter().map(|e| e.1).collect();
    assert_eq!(targets, vec!["#h1-1", "#h2-1.1", "#h2-1.2", "#h1-2", "#h2-2.1", "#h3-2.1.1"]);
}

#[test]
fn toc_follows_first_h1() {
    let doc = page_with_headings(&[1, 2]);
    let r = enable_table_of_contents(&doc);
    // main, h1, text, close, then the table of contents
    assert_eq!(attr_of(&r.tokens[4], "id").as_deref(), Some("table-of-contents"));
    assert_eq!(attr_of(&r.tokens[4], "class").as_deref(), Some("table-of-contents"));
    assert_eq!(attr_of(&r.tokens[5], "class").as_deref(), Some("toggle-btn"));
    assert_eq!(r.tokens[6], text("折叠目录 👇"));
    assert_eq!(attr_of(&r.tokens[8], "class").as_deref(), Some("toc-list"));
    assert_eq!(attr_of(&r.tokens[9], "class").as_deref(), Some("toc-level-1"));
}

#[test]
fn no_headings_unchanged() {
    let doc = page_with_headings(&[]);
    assert_eq!(enable_table_of_contents(&doc), doc);
}

#[test]
fn no_container_unchanged() {
    let doc = Document { tokens: heading(1, "A") };
    assert_eq!(enable_table_of_contents(&doc), doc);
}

#[test]
fn no_h1_no_toc() {
    let doc = page_with_headings(&[2, 2]);
    let r = enable_table_of_contents(&doc);
    assert_eq!(r.tokens.len(), doc.tokens.len());
    assert_eq!(heading_ids(&r), vec!["h2-0.1", "h2-0.2"]);
}

#[test]
fn existing_id_is_replaced() {
    let doc = Document {
        tokens: vec![
            open("main", &[("class", "container")]),
            open("h2", &[("id", "old"), ("class", "x")]),
            text("A"),
            Token::Close,
            Token::Close,
        ],
    };
    let r = enable_table_of_contents(&doc);
    assert_eq!(r.tokens[1], open("h2", &[("class", "x"), ("id", "h2-0.1")]));
}

#[test]
fn parents_of_levels() {
    assert_eq!(toc_parents(&vec![1, 1, 3]), vec![None, None, Some(1)]);
    assert_eq!(toc_parents(&vec![1, 2, 2, 1, 2]), vec![None, Some(0), Some(0), None, Some(3)]);
    assert_eq!(toc_parents(&vec![2, 1, 2]), vec![None, None, Some(1)]);
    assert_eq!(toc_parents(&vec![1, 3, 2]), vec![None, Some(0), Some(0)]);
}

fn note(id: &str, body: &str) -> Vec<Token> {
    vec![open("div", &[("class", "footnote-definition"), ("id", id)]), open("p", &[]), text(body), Token::Close, Token::Close]
}

fn page_with_notes() -> Document {
    let mut tokens = vec![open("main", &[("class", "container")]), open("p", &[]), text("x"), Token::Close];
    tokens.extend(note("1", "n1"));
    tokens.extend(vec![open("p", &[]), text("y"), Token::Close]);
    tokens.extend(note("2", "n2"));
    tokens.extend(vec![open("p", &[]), text("z"), Token::Close]);
    tokens.push(Token::Close);
    Document { tokens }
}

#[test]
fn footnotes_move_in_order() {
    let r = process_footnote(&page_with_notes());
    let mut expected = vec![open("main", &[("class", "container")]), open("p", &[]), text("x"), Token::Close];
    expected.extend(vec![open("p", &[]), text("y"), Token::Close]);
    expected.extend(vec![open("p", &[]), text("z"), Token::Close]);
    expected.push(open("div", &[("style", "margin: 80px")]));
    expected.extend(note("1", "n1"));
    expected.extend(note("2", "n2"));
    expected.push(Token::Close);
    expected.push(Token::Close);
    assert_eq!(r, Document { tokens: expected });
}

#[test]
fn footnote_relocation_is_idempotent() {
    let once = process_footnote(&page_with_notes());
    let twice = process_footnote(&once);
    assert_eq!(twice, once);
}

#[test]
fn post_process_twice_moves_nothing_more() {
    let once = post_process(&page_with_notes());
    let twice = post_process(&once);
    assert_eq!(twice, once);
}

#[test]
fn no_footnotes_unchanged() {
    let doc = page_with_headings(&[1, 2]);
    assert_eq!(process_footnote(&doc), doc);
}

#[test]
fn footnotes_outside_container_move_in() {
    let mut tokens = note("0", "n0");
    tokens.extend(vec![open("main", &[("class", "container")]), open("p", &[]), text("x"), Token::Close, Token::Close]);
    tokens.extend(note("1", "n1"));
    let r = process_footnote(&Document { tokens });
    let mut expected = vec![open("main", &[("class", "container")]), open("p", &[]), text("x"), Token::Close];
    expected.push(open("div", &[("style", "margin: 80px")]));
    expected.extend(note("0", "n0"));
    expected.extend(note("1", "n1"));
    expected.push(Token::Close);
    expected.push(Token::Close);
    assert_eq!(r, Document { tokens: expected });
    assert_eq!(process_footnote(&r), r);
}

#[test]
fn new_notes_join_relocated_block() {
    let once = process_footnote(&page_with_notes());
    let mut edited = once.clone();
    edited.tokens.splice(1..1, note("3", "n3"));
    let r = process_footnote(&edited);
    let mut expected = once.tokens.clone();
    let block_close = expected.len() - 2;
    expected.splice(block_close..block_close, note("3", "n3"));
    assert_eq!(r, Document { tokens: expected });
    assert_eq!(process_footnote(&r), r);
}

#[test]
fn no_container_footnotes_stay() {
    let doc = Document { tokens: note("1", "n1") };
    assert_eq!(process_footnote(&doc), doc);
}

#[test]
fn class_must_be_whole_word() {
    let mut tokens = vec![open("main", &[("class", "containers")])];
    tokens.extend(note("1", "n1"));
    tokens.push(Token::Close);
    let doc = Document { tokens };
    assert_eq!(process_footnote(&doc), doc);
    let mut tokens = vec![open("main", &[("class", "wide\tcontainer")])];
    tokens.extend(note("1", "n1"));
    tokens.push(Token::Close);
    let r = process_footnote(&Document { tokens });
    assert_eq!(r.tokens[1], open("div", &[("style", "margin: 80px")]));
}

#[test]
fn post_process_is_deterministic() {
    let mut doc = page_with_headings(&[1, 2, 1]);
    doc.tokens.pop();
    doc.tokens.extend(note("1", "n1"));
    doc.tokens.push(Token::Close);
    assert_eq!(post_process(&doc), post_process(&doc.clone()));
}

#[test]
fn post_process_twice_keeps_one_footnote_block() {
    let mut doc = page_with_headings(&[1, 2]);
    doc.tokens.pop();
    doc.tokens.extend(note("1", "n1"));
    doc.tokens.extend(vec![open("p", &[]), text("after"), Token::Close]);
    doc.tokens.extend(note("2", "n2"));
    doc.tokens.push(Token::Close);
    let once = post_process(&doc);
    let twice = post_process(&once);
    let blocks = |d: &Document| {
        d.tokens.iter().filter(|t| attr_of(t, "style").as_deref() == Some("margin: 80px")).count()
    };
    let notes = |d: &Document| {
        d.tokens.iter().filter(|t| attr_of(t, "class").as_deref() == Some("footnote-definition")).count()
    };
    assert_eq!(blocks(&once), 1);
    assert_eq!(blocks(&twice), 1);
    assert_eq!(notes(&twice), 2);
    let tail = |d: &Document| d.tokens[d.tokens.len() - 13..].to_vec();
    assert_eq!(tail(&twice), tail(&once));
}

use markdown_html::{scan, InlineNode};

fn text(s: &str) -> InlineNode {
    InlineNode::Text(s.to_string())
}

fn bold(s: &str) -> InlineNode {
    InlineNode::Bold(s.to_string())
}

fn italic(s: &str) -> InlineNode {
    InlineNode::Italic(s.to_string())
}

fn code(s: &str) -> InlineNode {
    InlineNode::InlineCode(s.to_string())
}

fn link(t: &str, u: &str) -> InlineNode {
    InlineNode::Link { text: t.to_string(), url: u.to_string() }
}

#[test]
fn scan_bold_between_text() {
    assert_eq!(scan("a **b** c"), vec![text("a "), bold("b"), text(" c")]);
}

#[test]
fn scan_unmatched_star_is_literal() {
    assert_eq!(scan("a * b"), vec![text("a * b")]);
    assert_eq!(scan("*"), vec![text("*")]);
    assert_eq!(scan("2 * 3 = 6"), vec![text("2 * 3 = 6")]);
}

#[test]
fn scan_empty_line_has_no_nodes() {
    assert_eq!(scan(""), Vec::<InlineNode>::new());
}

#[test]
fn scan_plain_text_is_one_node() {
    assert_eq!(scan("just some words."), vec![text("just some words.")]);
    assert_eq!(scan("naïve — ünïcödé"), vec![text("naïve — ünïcödé")]);
}

#[test]
fn scan_italic() {
    assert_eq!(scan("*a*"), vec![italic("a")]);
    assert_eq!(scan("x *y z* w"), vec![text("x "), italic("y z"), text(" w")]);
}

#[test]
fn scan_inline_code() {
    assert_eq!(scan("`a`"), vec![code("a")]);
    assert_eq!(scan("run `ls -l` now"), vec![text("run "), code("ls -l"), text(" now")]);
}

#[test]
fn scan_code_keeps_markers_inside() {
    assert_eq!(scan("`**a**`"), vec![code("**a**")]);
    assert_eq!(scan("`[x](y)`"), vec![code("[x](y)")]);
}

#[test]
fn scan_link() {
    assert_eq!(scan("[x](http://y)"), vec![link("x", "http://y")]);
    assert_eq!(scan("see [the site](https://e.org/a?b=c) now"), vec![
        text("see "),
        link("the site", "https://e.org/a?b=c"),
        text(" now"),
    ]);
}

#[test]
fn scan_link_parts_may_be_empty() {
    assert_eq!(scan("[]()"), vec![link("", "")]);
    assert_eq!(scan("[a]()"), vec![link("a", "")]);
    assert_eq!(scan("[](b)"), vec![link("", "b")]);
}

#[test]
fn scan_broken_links_are_literal() {
    assert_eq!(scan("[x]"), vec![text("[x]")]);
    assert_eq!(scan("[x] (y)"), vec![text("[x] (y)")]);
    assert_eq!(scan("[x](y"), vec![text("[x](y")]);
    assert_eq!(scan("[x"), vec![text("[x")]);
    assert_eq!(scan("x](y)"), vec![text("x](y)")]);
}

#[test]
fn scan_unmatched_backtick_is_literal() {
    assert_eq!(scan("a ` b"), vec![text("a ` b")]);
}

#[test]
fn scan_unmatched_double_star_is_literal() {
    assert_eq!(scan("**a"), vec![text("**a")]);
    assert_eq!(scan("a**"), vec![text("a**")]);
}

#[test]
fn scan_empty_spans_are_literal() {
    assert_eq!(scan("**"), vec![text("**")]);
    assert_eq!(scan("``"), vec![text("``")]);
    assert_eq!(scan("****"), vec![text("****")]);
    assert_eq!(scan("***"), vec![text("***")]);
}

#[test]
fn scan_strong_wins_over_emphasis() {
    assert_eq!(scan("**a**"), vec![bold("a")]);
    assert_eq!(scan("**a*b**"), vec![bold("a*b")]);
}

#[test]
fn scan_nearest_closing_delimiter() {
    assert_eq!(scan("*a* b*"), vec![italic("a"), text(" b*")]);
    assert_eq!(scan("**a** b**"), vec![bold("a"), text(" b**")]);
    assert_eq!(scan("`a` b`"), vec![code("a"), text(" b`")]);
    assert_eq!(scan("**a***"), vec![bold("a"), text("*")]);
}

#[test]
fn scan_falls_back_to_emphasis_after_single_star() {
    assert_eq!(scan("**a*"), vec![text("*"), italic("a")]);
    assert_eq!(scan("*a**"), vec![italic("a"), text("*")]);
}

#[test]
fn scan_single_star_closes_at_nearest_star() {
    assert_eq!(scan("a * b **e** f"), vec![text("a "), italic(" b "), italic("e"), text("* f")]);
}

#[test]
fn scan_adjacent_spans() {
    assert_eq!(scan("**a***b*`c`[d](e)"), vec![bold("a"), italic("b"), code("c"), link("d", "e")]);
}

#[test]
fn scan_spans_do_not_nest() {
    assert_eq!(scan("*a `b` c*"), vec![italic("a `b` c")]);
    assert_eq!(scan("[**x**](y)"), vec![link("**x**", "y")]);
}

#[test]
fn scan_text_nodes_are_coalesced() {
    let nodes = scan("a ` b [ c **e** f ] g");
    assert_eq!(nodes, vec![text("a ` b [ c "), bold("e"), text(" f ] g")]);
    for pair in nodes.windows(2) {
        assert!(!(matches!(pair[0], InlineNode::Text(_)) && matches!(pair[1], InlineNode::Text(_))));
    }
}

#[test]
fn scan_keeps_the_source() {
    let lines = ["a **b** c", "*x* `y` [z](w) **", "``[]()*", "plain", "**a*b** [q"];
    for line in lines {
        let mut back = String::new();
        for node in scan(line) {
            match node {
                InlineNode::Text(t) => back.push_str(&t),
                InlineNode::Bold(t) => back.push_str(&format!("**{}**", t)),
                InlineNode::Italic(t) => back.push_str(&format!("*{}*", t)),
                InlineNode::InlineCode(t) => back.push_str(&format!("`{}`", t)),
                InlineNode::Link { text, url } => back.push_str(&format!("[{}]({})", text, url)),
            }
        }
        assert_eq!(back, line);
    }
}

#[test]
fn scan_is_the_same_on_every_call() {
    assert_eq!(scan("a **b** `c` *d* [e](f)"), scan("a **b** `c` *d* [e](f)"));
}

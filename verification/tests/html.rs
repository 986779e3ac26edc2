//! Tests of the HTML tag tables and the renderers.
use turbo_md::ast::{TurboText, TurboTree};
use turbo_md::html::HtmlDefaults;
use turbo_md::{Code, Lang, ListKind, TurboTextMod};

#[test]
fn tree_renders_heading_list_and_code() {
    let para = |s: &str| {
        TurboTree::Text(TurboText::TextContainer(vec![TurboText::Plain(s.to_string())]))
    };
    let tree = TurboTree::Root {
        content: vec![
            TurboTree::Heading {
                size: 12,
                text: TurboText::TextContainer(vec![TurboText::Plain("t".to_string())]),
            },
            TurboTree::List {
                kind: ListKind::Unordered(None),
                items: vec![TurboTree::ListItem {
                    check: Some(true),
                    items: vec![para("x")],
                }],
            },
            TurboTree::Code(Code { lang: Lang::Rust, code: "fn f() {}\n".to_string() }),
            TurboTree::Horizontal,
            TurboTree::Empty,
        ],
    };
    let html = tree.generate_html(None);
    assert_eq!(
        html,
        "<h12>t</h12>\n\
         <ul>\n<li>\n<input type=\"checkbox\" checked=\"checked\"/><p>x</p>\n</li>\n</ul>\n\
         <pre><code class=\"rust\">\nfn f() {}\n</code></pre>\n\
         <hr/>\n"
    );
}

#[test]
fn page_frame_wraps_document() {
    let tree = TurboTree::Root { content: vec![TurboTree::Horizontal] };
    let html = tree.generate_html(Some(HtmlDefaults {
        title: "doc".to_string(),
        default_html: "<meta/>\n".to_string(),
    }));
    assert_eq!(
        html,
        "<!DOCTYPE html>\n<html>\n<head>\n<title>doc</title>\n<meta/>\n\
         </head>\n<body>\n<hr/>\n</body>\n</html>\n"
    );
}

#[test]
fn katex_and_unknown_language_blocks() {
    let katex = TurboTree::Code(Code { lang: Lang::KaTeX, code: "x^2\n".to_string() });
    assert_eq!(katex.to_html(), "<div class=\"katex\">\n$$\nx^2\n$$\n</div>\n");
    let unknown = TurboTree::Code(Code {
        lang: Lang::Other("zig".to_string()),
        code: "q\n".to_string(),
    });
    assert_eq!(unknown.to_html(), "");
}

#[test]
fn span_renders_to_nested_tags() {
    let span = TurboText::TextContainer(vec![
        TurboText::Plain("see ".to_string()),
        TurboText::Mod {
            kind: TurboTextMod::Bold,
            text: vec![
                TurboText::Plain("a".to_string()),
                TurboText::Mod {
                    kind: TurboTextMod::Cursive,
                    text: vec![TurboText::Plain("b".to_string())],
                },
            ],
        },
        TurboText::NewLine,
        TurboText::Link {
            alias: Some("site".to_string()),
            address: "https://example.org".to_string(),
        },
        TurboText::Link { alias: None, address: "https://example.org".to_string() },
    ]);
    assert_eq!(
        span.to_html(),
        "see <b>a<i>b</i></b><br/><a href=\"https://example.org\">site</a>\
         <a href=\"https://example.org\">https://example.org</a>"
    );
}

#[test]
fn mod_tags_open_and_close() {
    assert_eq!(TurboTextMod::Bold.to_html(false), "<b>");
    assert_eq!(TurboTextMod::Bold.to_html(true), "</b>");
    assert_eq!(TurboTextMod::Cursive.to_html(false), "<i>");
    assert_eq!(TurboTextMod::Cursive.to_html(true), "</i>");
    assert_eq!(TurboTextMod::Strike.to_html(false), "<del>");
    assert_eq!(TurboTextMod::Strike.to_html(true), "</del>");
    assert_eq!(TurboTextMod::Underline.to_html(false), "<ins>");
    assert_eq!(TurboTextMod::Underline.to_html(true), "</ins>");
    assert_eq!(TurboTextMod::Code.to_html(false), "<code>");
    assert_eq!(TurboTextMod::Code.to_html(true), "</code>");
    assert_eq!(TurboTextMod::Sup.to_html(false), "<sup>");
    assert_eq!(TurboTextMod::Sup.to_html(true), "</sup>");
    assert_eq!(TurboTextMod::Sub.to_html(false), "<sub>");
    assert_eq!(TurboTextMod::Sub.to_html(true), "</sub>");
}

#[test]
fn list_tags_ordered_kinds() {
    assert_eq!(ListKind::Numbered.to_html(false), "<ol type=\"1\">");
    assert_eq!(ListKind::Numbered.to_html(true), "</ol>");
    assert_eq!(ListKind::AlphabetUpper.to_html(false), "<ol type=\"1\">");
    assert_eq!(ListKind::RomanLower.to_html(true), "</ol>");
}

#[test]
fn list_tags_unordered_styles() {
    assert_eq!(ListKind::Unordered(None).to_html(false), "<ul>");
    assert_eq!(ListKind::Unordered(None).to_html(true), "</ul>");
    assert_eq!(
        ListKind::Unordered(Some(0)).to_html(false),
        "<ul style=\"list-style-type:none\">"
    );
    assert_eq!(
        ListKind::Unordered(Some(1)).to_html(false),
        "<ul style=\"list-style-type:circle\">"
    );
    assert_eq!(
        ListKind::Unordered(Some(2)).to_html(false),
        "<ul style=\"list-style-type:disc\">"
    );
    assert_eq!(
        ListKind::Unordered(Some(3)).to_html(false),
        "<ul style=\"list-style-type:square\">"
    );
    assert_eq!(ListKind::Unordered(Some(3)).to_html(true), "</ul>");
}

#[test]
fn list_kind_names() {
    assert_eq!(ListKind::Numbered.name(), "Numbered");
    assert_eq!(ListKind::AlphabetUpper.name(), "Alphabet Upper");
    assert_eq!(ListKind::RomanLower.name(), "Roman Lower");
    assert_eq!(ListKind::Unordered(Some(2)).name(), "Unordered");
}

//! The leaf tables of the HTML rendering stage: the opening and closing tags
//! of each inline formatting kind and of each list kind. The tree-walking
//! renderer that strings these together is an external consumer of the tree.
use vstd::prelude::*;

verus! {

use crate::ast::{TurboText, TurboTree};
use crate::model::{
    lemma_texts_view, lemma_trees_view, text_view, texts_view, tree_view, trees_view, LangV,
    TextV, TreeV,
};
use crate::{ListKind, TurboTextMod};
use vstd::string::StringExecFns;

/// The page frame handed to the HTML rendering stage: the document title and
/// the header block pasted into the page head.
#[derive(Debug, PartialEq)]
pub struct HtmlDefaults {
    pub title: String,
    pub default_html: String,
}

/// The tag `TurboTextMod::to_html` returns for each kind and side.
pub open spec fn mod_tag(m: TurboTextMod, close: bool) -> Seq<char> {
    match m {
        TurboTextMod::Bold => if !close { "<b>"@ } else { "</b>"@ },
        TurboTextMod::Cursive => if !close { "<i>"@ } else { "</i>"@ },
        TurboTextMod::Strike => if !close { "<del>"@ } else { "</del>"@ },
        TurboTextMod::Underline => if !close { "<ins>"@ } else { "</ins>"@ },
        TurboTextMod::Code => if !close { "<code>"@ } else { "</code>"@ },
        TurboTextMod::Sup => if !close { "<sup>"@ } else { "</sup>"@ },
        TurboTextMod::Sub => if !close { "<sub>"@ } else { "</sub>"@ },
    }
}

impl TurboTextMod {
    /// The opening (`close == false`) or closing tag this inline formatting
    /// kind renders to.
    pub fn to_html(&self, close: bool) -> (r: &'static str)
        ensures
            r@ == mod_tag(*self, close),
    {
        match self {
            TurboTextMod::Bold => if !close { "<b>" } else { "</b>" },
            TurboTextMod::Cursive => if !close { "<i>" } else { "</i>" },
            TurboTextMod::Strike => if !close { "<del>" } else { "</del>" },
            TurboTextMod::Underline => if !close { "<ins>" } else { "</ins>" },
            TurboTextMod::Code => if !close { "<code>" } else { "</code>" },
            TurboTextMod::Sup => if !close { "<sup>" } else { "</sup>" },
            TurboTextMod::Sub => if !close { "<sub>" } else { "</sub>" },
        }
    }
}

/// The HTML one resolved span renders to: its children inside its kind's tag
/// pair for a modifier span, an anchor for a link, the text itself for a
/// plain run, a line break tag for a break.
pub open spec fn text_html(t: TextV) -> Seq<char>
    decreases t,
{
    match t {
        TextV::Container(c) => texts_html(c),
        TextV::Mod { kind, text } => mod_tag(kind, false) + texts_html(text) + mod_tag(
            kind,
            true,
        ),
        TextV::Link { alias, address } => "<a href=\""@ + address + "\">"@ + (match alias {
            Some(a) => a,
            None => address,
        }) + "</a>"@,
        TextV::Plain(s) => s,
        TextV::NewLine => "<br/>"@,
    }
}

/// The HTML a span run renders to, in order.
pub open spec fn texts_html(s: Seq<TextV>) -> Seq<char>
    decreases s,
{
    if s.len() == 0 {
        Seq::empty()
    } else {
        text_html(s[0]) + texts_html(s.drop_first())
    }
}

/// Rendering one more span extends the run's rendering at the right.
proof fn lemma_texts_html_take(s: Seq<TextV>, i: int)
    requires
        0 <= i < s.len(),
    ensures
        texts_html(s.take(i + 1)) == texts_html(s.take(i)) + text_html(s[i]),
    decreases i,
{
    if i == 0 {
        assert(s.take(1)[0] == s[0]);
        assert(s.take(1).drop_first() =~= Seq::<TextV>::empty());
        assert(s.take(0) =~= Seq::<TextV>::empty());
        assert(text_html(s[0]) + Seq::<char>::empty() =~= text_html(s[0]));
        assert(Seq::<char>::empty() + text_html(s[0]) =~= text_html(s[0]));
    } else {
        lemma_texts_html_take(s.drop_first(), i - 1);
        assert(s.take(i + 1)[0] == s[0]);
        assert(s.take(i)[0] == s[0]);
        assert(s.take(i + 1).drop_first() =~= s.drop_first().take(i));
        assert(s.take(i).drop_first() =~= s.drop_first().take(i - 1));
        assert(text_html(s[0]) + (texts_html(s.drop_first().take(i - 1)) + text_html(
            s.drop_first()[i - 1],
        )) =~= (text_html(s[0]) + texts_html(s.drop_first().take(i - 1))) + text_html(s[i]));
    }
}

/// Renders a run of sibling spans, in order.
fn texts_to_html(v: &Vec<TurboText>) -> (r: String)
    ensures
        r@ == texts_html(texts_view(v@)),
    decreases v@,
{
    let mut r = String::new();
    let mut i: usize = 0;
    proof {
        lemma_texts_view(v@);
    }
    while i < v.len()
        invariant
            0 <= i <= v@.len(),
            r@ == texts_html(texts_view(v@).take(i as int)),
            texts_view(v@).len() == v@.len(),
            forall|j: int| 0 <= j < v@.len() ==> texts_view(v@)[j] == text_view(v@[j]),
        decreases v@.len() - i,
    {
        let piece = v[i].to_html();
        r.append(piece.as_str());
        proof {
            lemma_texts_html_take(texts_view(v@), i as int);
        }
        i = i + 1;
    }
    proof {
        assert(texts_view(v@).take(v@.len() as int) =~= texts_view(v@));
    }
    r
}

impl TurboText {
    /// The HTML fragment this resolved span renders to.
    pub fn to_html(&self) -> (r: String)
        ensures
            r@ == text_html(text_view(*self)),
        decreases *self,
    {
        match self {
            TurboText::TextContainer(text) => texts_to_html(text),
            TurboText::Mod { kind, text } => {
                let mut r = String::from_str(kind.to_html(false));
                let inner = texts_to_html(text);
                r.append(inner.as_str());
                r.append(kind.to_html(true));
                r
            },
            TurboText::Link { alias, address } => {
                let mut r = String::from_str("<a href=\"");
                r.append(address.as_str());
                r.append("\">");
                match alias {
                    Some(alias) => r.append(alias.as_str()),
                    None => r.append(address.as_str()),
                }
                r.append("</a>");
                r
            },
            TurboText::Plain(text) => text.clone(),
            TurboText::NewLine => String::from_str("<br/>"),
        }
    }
}

/// The tag `ListKind::to_html` returns for each kind and side. Every ordered
/// subtype renders to the same numbered tag; the unordered style index picks
/// the bullet style.
pub open spec fn list_tag(k: ListKind, close: bool) -> Seq<char> {
    match k {
        ListKind::Unordered(ty) => {
            if close {
                "</ul>"@
            } else {
                match ty {
                    None => "<ul>"@,
                    Some(t) => {
                        if t == 0 {
                            "<ul style=\"list-style-type:none\">"@
                        } else if t == 1 {
                            "<ul style=\"list-style-type:circle\">"@
                        } else if t == 2 {
                            "<ul style=\"list-style-type:disc\">"@
                        } else {
                            "<ul style=\"list-style-type:square\">"@
                        }
                    },
                }
            }
        },
        _ => if !close { "<ol type=\"1\">"@ } else { "</ol>"@ },
    }
}

/// The decimal digit character for one digit value.
pub open spec fn dec_digit(d: int) -> char {
    if d == 0 {
        '0'
    } else if d == 1 {
        '1'
    } else if d == 2 {
        '2'
    } else if d == 3 {
        '3'
    } else if d == 4 {
        '4'
    } else if d == 5 {
        '5'
    } else if d == 6 {
        '6'
    } else if d == 7 {
        '7'
    } else if d == 8 {
        '8'
    } else {
        '9'
    }
}

/// The decimal writing of a non-negative number, most significant digit
/// first.
pub open spec fn dec_str(n: int) -> Seq<char>
    decreases n,
{
    if n < 10 {
        seq![dec_digit(n)]
    } else {
        dec_str(n / 10) + seq![dec_digit(n % 10)]
    }
}

/// Writes a number in decimal.
fn usize_to_string(n: usize) -> (r: String)
    ensures
        r@ == dec_str(n as int),
    decreases n,
{
    let digit: &str = match n % 10 {
        0 => "0",
        1 => "1",
        2 => "2",
        3 => "3",
        4 => "4",
        5 => "5",
        6 => "6",
        7 => "7",
        8 => "8",
        _ => "9",
    };
    proof {
        reveal_strlit("0");
        reveal_strlit("1");
        reveal_strlit("2");
        reveal_strlit("3");
        reveal_strlit("4");
        reveal_strlit("5");
        reveal_strlit("6");
        reveal_strlit("7");
        reveal_strlit("8");
        reveal_strlit("9");
        assert(digit@ =~= seq![dec_digit(n as int % 10)]);
    }
    if n < 10 {
        String::from_str(digit)
    } else {
        let mut r = usize_to_string(n / 10);
        r.append(digit);
        r
    }
}

/// The canonical name of a language tag, over the model.
pub open spec fn lang_chars(l: LangV) -> Seq<char> {
    match l {
        LangV::Turbo => "turbo"@,
        LangV::KaTeX => "katex"@,
        LangV::Rust => "rust"@,
        LangV::Nim => "nim"@,
        LangV::Python => "python"@,
        LangV::C => "c"@,
        LangV::CPP => "cpp"@,
        LangV::Other(s) => s,
    }
}

/// A node the renderer accepts: no nested document root and no unresolved
/// include reference anywhere below it. An include reference must be
/// substituted by a prior pass; rendering one is a hard failure.
pub open spec fn renderable(t: TreeV) -> bool
    decreases t,
{
    match t {
        TreeV::Root { .. } => false,
        TreeV::Include(_) => false,
        TreeV::List { kind, items } => {
            &&& (kind matches ListKind::Unordered(Some(ty)) ==> ty <= 3)
            &&& all_renderable(items)
        },
        TreeV::ListItem { check, items } => all_renderable(items),
        _ => true,
    }
}

/// Every node of the run is renderable.
pub open spec fn all_renderable(s: Seq<TreeV>) -> bool
    decreases s,
{
    if s.len() == 0 {
        true
    } else {
        renderable(s[0]) && all_renderable(s.drop_first())
    }
}

/// Renderability of a run is elementwise.
proof fn lemma_all_renderable_elem(s: Seq<TreeV>, i: int)
    requires
        all_renderable(s),
        0 <= i < s.len(),
    ensures
        renderable(s[i]),
    decreases i,
{
    if i > 0 {
        lemma_all_renderable_elem(s.drop_first(), i - 1);
    }
}

/// The HTML one document node renders to.
pub open spec fn tree_html(t: TreeV) -> Seq<char>
    decreases t,
{
    match t {
        TreeV::Root { .. } => Seq::empty(),
        TreeV::Text(text) => "<p>"@ + text_html(text) + "</p>\n"@,
        TreeV::Heading { size, text } => "<h"@ + dec_str(size) + ">"@ + text_html(text)
            + "</h"@ + dec_str(size) + ">\n"@,
        TreeV::List { kind, items } => list_tag(kind, false) + "\n"@ + trees_html(items)
            + list_tag(kind, true) + "\n"@,
        TreeV::ListItem { check, items } => "<li>\n"@ + (match check {
            Some(c) => if c {
                "<input type=\"checkbox\" checked=\"checked\"/>"@
            } else {
                "<input type=\"checkbox\"/>"@
            },
            None => Seq::empty(),
        }) + trees_html(items) + "</li>\n"@,
        TreeV::Code(code) => match code.lang {
            LangV::KaTeX => "<div class=\"katex\">\n$$\n"@ + code.code + "$$\n</div>\n"@,
            LangV::Other(_) => Seq::empty(),
            _ => "<pre><code class=\""@ + lang_chars(code.lang) + "\">\n"@ + code.code
                + "</code></pre>\n"@,
        },
        TreeV::Horizontal => "<hr/>\n"@,
        TreeV::Empty => Seq::empty(),
        TreeV::Include(_) => Seq::empty(),
    }
}

/// The HTML a run of nodes renders to, in order.
pub open spec fn trees_html(s: Seq<TreeV>) -> Seq<char>
    decreases s,
{
    if s.len() == 0 {
        Seq::empty()
    } else {
        tree_html(s[0]) + trees_html(s.drop_first())
    }
}

/// Rendering one more node extends the run's rendering at the right.
proof fn lemma_trees_html_take(s: Seq<TreeV>, i: int)
    requires
        0 <= i < s.len(),
    ensures
        trees_html(s.take(i + 1)) == trees_html(s.take(i)) + tree_html(s[i]),
    decreases i,
{
    if i == 0 {
        assert(s.take(1)[0] == s[0]);
        assert(s.take(1).drop_first() =~= Seq::<TreeV>::empty());
        assert(s.take(0) =~= Seq::<TreeV>::empty());
        assert(tree_html(s[0]) + Seq::<char>::empty() =~= tree_html(s[0]));
        assert(Seq::<char>::empty() + tree_html(s[0]) =~= tree_html(s[0]));
    } else {
        lemma_trees_html_take(s.drop_first(), i - 1);
        assert(s.take(i + 1)[0] == s[0]);
        assert(s.take(i)[0] == s[0]);
        assert(s.take(i + 1).drop_first() =~= s.drop_first().take(i));
        assert(s.take(i).drop_first() =~= s.drop_first().take(i - 1));
        assert(tree_html(s[0]) + (trees_html(s.drop_first().take(i - 1)) + tree_html(
            s.drop_first()[i - 1],
        )) =~= (tree_html(s[0]) + trees_html(s.drop_first().take(i - 1))) + tree_html(s[i]));
    }
}

/// Renders a run of sibling nodes, in order.
fn trees_to_html(v: &Vec<TurboTree>) -> (r: String)
    requires
        all_renderable(trees_view(v@)),
    ensures
        r@ == trees_html(trees_view(v@)),
    decreases v@,
{
    let mut r = String::new();
    let mut i: usize = 0;
    proof {
        lemma_trees_view(v@);
    }
    while i < v.len()
        invariant
            0 <= i <= v@.len(),
            all_renderable(trees_view(v@)),
            r@ == trees_html(trees_view(v@).take(i as int)),
            trees_view(v@).len() == v@.len(),
            forall|j: int| 0 <= j < v@.len() ==> trees_view(v@)[j] == tree_view(v@[j]),
        decreases v@.len() - i,
    {
        proof {
            lemma_all_renderable_elem(trees_view(v@), i as int);
        }
        let piece = v[i].to_html();
        r.append(piece.as_str());
        proof {
            lemma_trees_html_take(trees_view(v@), i as int);
        }
        i = i + 1;
    }
    proof {
        assert(trees_view(v@).take(v@.len() as int) =~= trees_view(v@));
    }
    r
}

impl TurboTree {
    /// The HTML fragment this node renders to.
    pub fn to_html(&self) -> (r: String)
        requires
            renderable(tree_view(*self)),
        ensures
            r@ == tree_html(tree_view(*self)),
        decreases *self,
    {
        match self {
            TurboTree::Root { .. } => unreached(),
            TurboTree::Text(text) => {
                let mut r = String::from_str("<p>");
                let inner = text.to_html();
                r.append(inner.as_str());
                r.append("</p>\n");
                r
            },
            TurboTree::Heading { size, text } => {
                let mut r = String::from_str("<h");
                let num = usize_to_string(*size);
                r.append(num.as_str());
                r.append(">");
                let inner = text.to_html();
                r.append(inner.as_str());
                r.append("</h");
                r.append(num.as_str());
                r.append(">\n");
                r
            },
            TurboTree::List { kind, items } => {
                let mut r = String::from_str(kind.to_html(false));
                r.append("\n");
                let inner = trees_to_html(items);
                r.append(inner.as_str());
                r.append(kind.to_html(true));
                r.append("\n");
                r
            },
            TurboTree::ListItem { check, items } => {
                let mut r = String::from_str("<li>\n");
                match check {
                    Some(c) => {
                        if *c {
                            r.append("<input type=\"checkbox\" checked=\"checked\"/>");
                        } else {
                            r.append("<input type=\"checkbox\"/>");
                        }
                    },
                    None => {},
                }
                let inner = trees_to_html(items);
                r.append(inner.as_str());
                r.append("</li>\n");
                r
            },
            TurboTree::Code(code) => {
                match &code.lang {
                    crate::Lang::KaTeX => {
                        let mut r = String::from_str("<div class=\"katex\">\n$$\n");
                        r.append(code.code.as_str());
                        r.append("$$\n</div>\n");
                        r
                    },
                    crate::Lang::Other(_) => String::new(),
                    _ => {
                        let mut r = String::from_str("<pre><code class=\"");
                        r.append(code.lang.as_str());
                        r.append("\">\n");
                        r.append(code.code.as_str());
                        r.append("</code></pre>\n");
                        r
                    },
                }
            },
            TurboTree::Horizontal => String::from_str("<hr/>\n"),
            TurboTree::Empty => String::new(),
            TurboTree::Include(_) => unreached(),
        }
    }
}

/// The name `ListKind::name` prints for each kind.
pub open spec fn kind_name(k: ListKind) -> Seq<char> {
    match k {
        ListKind::Numbered => "Numbered"@,
        ListKind::AlphabetUpper => "Alphabet Upper"@,
        ListKind::AlphabetLower => "Alphabet Lower"@,
        ListKind::RomanUpper => "Roman Upper"@,
        ListKind::RomanLower => "Roman Lower"@,
        ListKind::Unordered(_) => "Unordered"@,
    }
}

impl ListKind {
    /// The human-readable name of this list kind, for diagnostic output.
    pub fn name(&self) -> (r: &'static str)
        ensures
            r@ == kind_name(*self),
    {
        match self {
            ListKind::Numbered => "Numbered",
            ListKind::AlphabetUpper => "Alphabet Upper",
            ListKind::AlphabetLower => "Alphabet Lower",
            ListKind::RomanUpper => "Roman Upper",
            ListKind::RomanLower => "Roman Lower",
            ListKind::Unordered(_) => "Unordered",
        }
    }
}

/// The page a rendered document is wrapped in when a page frame is given:
/// head with title and the frame's header block, then the body.
pub open spec fn page_html(title: Seq<char>, default_html: Seq<char>, content: Seq<TreeV>) -> Seq<
    char,
> {
    "<!DOCTYPE html>\n<html>\n<head>\n<title>"@ + title + "</title>\n"@ + default_html
        + "</head>\n<body>\n"@ + trees_html(content) + "</body>\n</html>\n"@
}

impl TurboTree {
    /// Renders a whole document: its children in order, wrapped in a page
    /// frame when one is given.
    pub fn generate_html(&self, defaults: Option<HtmlDefaults>) -> (r: String)
        requires
            match tree_view(*self) {
                TreeV::Root { content } => all_renderable(content),
                _ => false,
            },
        ensures
            match tree_view(*self) {
                TreeV::Root { content } => match defaults {
                    Some(d) => r@ == page_html(d.title@, d.default_html@, content),
                    None => r@ == trees_html(content),
                },
                _ => false,
            },
    {
        let mut result = String::new();
        match self {
            TurboTree::Root { content } => {
                match &defaults {
                    Some(d) => {
                        result.append("<!DOCTYPE html>\n<html>\n<head>\n<title>");
                        result.append(d.title.as_str());
                        result.append("</title>\n");
                        result.append(d.default_html.as_str());
                        result.append("</head>\n<body>\n");
                    },
                    None => {},
                }
                let inner = trees_to_html(content);
                result.append(inner.as_str());
                match &defaults {
                    Some(_) => {
                        result.append("</body>\n</html>\n");
                    },
                    None => {},
                }
                result
            },
            _ => unreached(),
        }
    }
}

impl ListKind {
    /// The opening (`close == false`) or closing tag this list kind renders
    /// to. An unordered style index above three is an unsupported construct
    /// and is rejected rather than silently degraded.
    pub fn to_html(&self, close: bool) -> (r: &'static str)
        requires
            *self matches ListKind::Unordered(Some(t)) ==> t <= 3,
        ensures
            r@ == list_tag(*self, close),
    {
        match self {
            ListKind::Numbered => if !close { "<ol type=\"1\">" } else { "</ol>" },
            ListKind::AlphabetUpper => if !close { "<ol type=\"1\">" } else { "</ol>" },
            ListKind::AlphabetLower => if !close { "<ol type=\"1\">" } else { "</ol>" },
            ListKind::RomanUpper => if !close { "<ol type=\"1\">" } else { "</ol>" },
            ListKind::RomanLower => if !close { "<ol type=\"1\">" } else { "</ol>" },
            ListKind::Unordered(ty) => {
                if close {
                    return "</ul>";
                }
                match ty {
                    None => "<ul>",
                    Some(t) => {
                        if *t == 0 {
                            "<ul style=\"list-style-type:none\">"
                        } else if *t == 1 {
                            "<ul style=\"list-style-type:circle\">"
                        } else if *t == 2 {
                            "<ul style=\"list-style-type:disc\">"
                        } else {
                            "<ul style=\"list-style-type:square\">"
                        }
                    },
                }
            },
        }
    }
}

} // verus!

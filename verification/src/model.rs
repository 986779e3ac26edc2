//! The mathematical model of the document data: pure counterparts of the
//! event, tree and span types, the view functions that map the executable
//! types onto them, and the specifications of the assembler and the resolver.
use vstd::prelude::*;

verus! {

use crate::{Code, Lang, ListKind, Turbo, TurboInlineRaw, TurboTextMod};

/// Model of a language tag.
#[verifier::ext_equal]
pub enum LangV {
    Turbo,
    KaTeX,
    Rust,
    Nim,
    Python,
    C,
    CPP,
    Other(Seq<char>),
}

/// Model of a fenced code block.
#[verifier::ext_equal]
pub struct CodeV {
    pub lang: LangV,
    pub code: Seq<char>,
}

/// Model of one inline token.
#[verifier::ext_equal]
pub enum InlineV {
    Text(Seq<char>),
    ModFlag(TurboTextMod),
    Link { alias: Option<Seq<char>>, address: Seq<char> },
    NewLine,
}

/// Model of one block event.
#[verifier::ext_equal]
pub enum EventV {
    Root(Seq<EventV>),
    Header { ident: int, size: int, text: Seq<InlineV> },
    Line { ident: int, text: Seq<InlineV> },
    ListElemStart { ident: int, kind: ListKind, check: Option<bool>, content: Seq<EventV> },
    Code { ident: Option<int>, code: CodeV },
    Include { ident: int, path: Seq<char> },
    Horizontal,
    Empty,
}

/// Model of one resolved inline span.
#[verifier::ext_equal]
pub enum TextV {
    Container(Seq<TextV>),
    Mod { kind: TurboTextMod, text: Seq<TextV> },
    Link { alias: Option<Seq<char>>, address: Seq<char> },
    Plain(Seq<char>),
    NewLine,
}

/// Model of one document tree node.
#[verifier::ext_equal]
pub enum TreeV {
    Root { content: Seq<TreeV> },
    Text(TextV),
    Heading { size: int, text: TextV },
    List { kind: ListKind, items: Seq<TreeV> },
    ListItem { check: Option<bool>, items: Seq<TreeV> },
    Code(CodeV),
    Horizontal,
    Empty,
    Include(Seq<char>),
}

pub open spec fn lang_view(l: Lang) -> LangV {
    match l {
        Lang::Turbo => LangV::Turbo,
        Lang::KaTeX => LangV::KaTeX,
        Lang::Rust => LangV::Rust,
        Lang::Nim => LangV::Nim,
        Lang::Python => LangV::Python,
        Lang::C => LangV::C,
        Lang::CPP => LangV::CPP,
        Lang::Other(s) => LangV::Other(s@),
    }
}

pub open spec fn code_view(c: Code) -> CodeV {
    CodeV { lang: lang_view(c.lang), code: c.code@ }
}

pub open spec fn opt_string_view(s: Option<String>) -> Option<Seq<char>> {
    match s {
        Some(s) => Some(s@),
        None => None,
    }
}

pub open spec fn inline_view(t: TurboInlineRaw) -> InlineV {
    match t {
        TurboInlineRaw::Text(s) => InlineV::Text(s@),
        TurboInlineRaw::ModFlag(m) => InlineV::ModFlag(m),
        TurboInlineRaw::Link { alias, address } => InlineV::Link {
            alias: opt_string_view(alias),
            address: address@,
        },
        TurboInlineRaw::NewLine => InlineV::NewLine,
    }
}

pub open spec fn inlines_view(s: Seq<TurboInlineRaw>) -> Seq<InlineV> {
    s.map_values(|t: TurboInlineRaw| inline_view(t))
}

pub open spec fn opt_ident_view(i: Option<usize>) -> Option<int> {
    match i {
        Some(i) => Some(i as int),
        None => None,
    }
}

pub open spec fn turbo_view(t: Turbo) -> EventV
    decreases t,
{
    match t {
        Turbo::Root(v) => EventV::Root(turbos_view(v@)),
        Turbo::Header { ident, size, text } => EventV::Header {
            ident: ident as int,
            size: size as int,
            text: inlines_view(text@),
        },
        Turbo::Line { ident, text } => EventV::Line {
            ident: ident as int,
            text: inlines_view(text@),
        },
        Turbo::ListElemStart { ident, kind, check, content } => EventV::ListElemStart {
            ident: ident as int,
            kind,
            check,
            content: turbos_view(content@),
        },
        Turbo::Code { ident, code } => EventV::Code {
            ident: opt_ident_view(ident),
            code: code_view(code),
        },
        Turbo::Include { ident, path } => EventV::Include { ident: ident as int, path: path@ },
        Turbo::Horizontal => EventV::Horizontal,
        Turbo::Empty => EventV::Empty,
    }
}

pub open spec fn turbos_view(s: Seq<Turbo>) -> Seq<EventV>
    decreases s,
{
    if s.len() == 0 {
        Seq::empty()
    } else {
        seq![turbo_view(s[0])] + turbos_view(s.drop_first())
    }
}

/// The event-sequence view is the elementwise event view.
pub proof fn lemma_turbos_view(s: Seq<Turbo>)
    ensures
        turbos_view(s).len() == s.len(),
        forall|i: int| 0 <= i < s.len() ==> turbos_view(s)[i] == turbo_view(s[i]),
    decreases s.len(),
{
    if s.len() > 0 {
        lemma_turbos_view(s.drop_first());
    }
}

pub open spec fn text_view(t: crate::ast::TurboText) -> TextV
    decreases t,
{
    match t {
        crate::ast::TurboText::TextContainer(v) => TextV::Container(texts_view(v@)),
        crate::ast::TurboText::Mod { kind, text } => TextV::Mod { kind, text: texts_view(text@) },
        crate::ast::TurboText::Link { alias, address } => TextV::Link {
            alias: opt_string_view(alias),
            address: address@,
        },
        crate::ast::TurboText::Plain(s) => TextV::Plain(s@),
        crate::ast::TurboText::NewLine => TextV::NewLine,
    }
}

pub open spec fn texts_view(s: Seq<crate::ast::TurboText>) -> Seq<TextV>
    decreases s,
{
    if s.len() == 0 {
        Seq::empty()
    } else {
        seq![text_view(s[0])] + texts_view(s.drop_first())
    }
}

/// The span-sequence view is the elementwise span view.
pub proof fn lemma_texts_view(s: Seq<crate::ast::TurboText>)
    ensures
        texts_view(s).len() == s.len(),
        forall|i: int| 0 <= i < s.len() ==> texts_view(s)[i] == text_view(s[i]),
    decreases s.len(),
{
    if s.len() > 0 {
        lemma_texts_view(s.drop_first());
    }
}

pub open spec fn tree_view(t: crate::ast::TurboTree) -> TreeV
    decreases t,
{
    match t {
        crate::ast::TurboTree::Root { content } => TreeV::Root { content: trees_view(content@) },
        crate::ast::TurboTree::Text(text) => TreeV::Text(text_view(text)),
        crate::ast::TurboTree::Heading { size, text } => TreeV::Heading {
            size: size as int,
            text: text_view(text),
        },
        crate::ast::TurboTree::List { kind, items } => TreeV::List {
            kind,
            items: trees_view(items@),
        },
        crate::ast::TurboTree::ListItem { check, items } => TreeV::ListItem {
            check,
            items: trees_view(items@),
        },
        crate::ast::TurboTree::Code(code) => TreeV::Code(code_view(code)),
        crate::ast::TurboTree::Horizontal => TreeV::Horizontal,
        crate::ast::TurboTree::Empty => TreeV::Empty,
        crate::ast::TurboTree::Include(path) => TreeV::Include(path@),
    }
}

pub open spec fn trees_view(s: Seq<crate::ast::TurboTree>) -> Seq<TreeV>
    decreases s,
{
    if s.len() == 0 {
        Seq::empty()
    } else {
        seq![tree_view(s[0])] + trees_view(s.drop_first())
    }
}

/// The node-sequence view is the elementwise node view.
pub proof fn lemma_trees_view(s: Seq<crate::ast::TurboTree>)
    ensures
        trees_view(s).len() == s.len(),
        forall|i: int| 0 <= i < s.len() ==> trees_view(s)[i] == tree_view(s[i]),
    decreases s.len(),
{
    if s.len() > 0 {
        lemma_trees_view(s.drop_first());
    }
}

/// Appending one node commutes with the node-sequence view.
pub proof fn lemma_trees_view_push(s: Seq<crate::ast::TurboTree>, x: crate::ast::TurboTree)
    ensures
        trees_view(s.push(x)) == trees_view(s).push(tree_view(x)),
{
    lemma_trees_view(s.push(x));
    lemma_trees_view(s);
    assert(trees_view(s.push(x)) =~= trees_view(s).push(tree_view(x)));
}

pub open spec fn opt_tree_view(t: Option<crate::ast::TurboTree>) -> Option<TreeV> {
    match t {
        Some(t) => Some(tree_view(t)),
        None => None,
    }
}

/// One step of the inline span resolver, on the remaining token list, inside
/// a container around which the modifier kinds `open` are open.
///
/// The result is the token list left unconsumed and the spans appended to
/// the current container. A marker whose kind is not open starts a nested
/// span, filled by resolving forward until the same kind reappears; the
/// reappearing marker closes exactly that span and is consumed by it. A
/// marker whose kind is open around the current container ends the container
/// unconsumed, handing control back towards the span that owns the kind; the
/// containers passed over on the way close silently, as all spans do at end
/// of input. A kind can therefore never reopen while it is open, and a span
/// never contains another span of its own kind.
///
/// The guards on the length and head of the unconsumed list only serve
/// termination and case splitting; `lemma_resolve_len` bounds the length.
pub open spec fn resolve_s(toks: Seq<InlineV>, open: Set<TurboTextMod>) -> (
    Seq<InlineV>,
    Seq<TextV>,
)
    decreases toks.len(),
{
    if toks.len() == 0 {
        (toks, Seq::empty())
    } else {
        match toks[0] {
            InlineV::Text(s) => {
                let (rem, sp) = resolve_s(toks.drop_first(), open);
                (rem, seq![TextV::Plain(s)] + sp)
            },
            InlineV::NewLine => {
                let (rem, sp) = resolve_s(toks.drop_first(), open);
                (rem, seq![TextV::NewLine] + sp)
            },
            InlineV::Link { alias, address } => {
                let (rem, sp) = resolve_s(toks.drop_first(), open);
                (rem, seq![TextV::Link { alias, address }] + sp)
            },
            InlineV::ModFlag(m) => {
                if open.contains(m) {
                    (toks, Seq::empty())
                } else {
                    let (rem1, inner) = resolve_s(toks.drop_first(), open.insert(m));
                    if rem1.len() > 0 && rem1[0] == InlineV::ModFlag(m) && rem1.len()
                        < toks.len() {
                        let (rem2, rest) = resolve_s(rem1.drop_first(), open);
                        (rem2, seq![TextV::Mod { kind: m, text: inner }] + rest)
                    } else {
                        (rem1, seq![TextV::Mod { kind: m, text: inner }])
                    }
                }
            },
        }
    }
}

/// The resolver never leaves more tokens than it was given.
pub proof fn lemma_resolve_len(toks: Seq<InlineV>, open: Set<TurboTextMod>)
    ensures
        resolve_s(toks, open).0.len() <= toks.len(),
    decreases toks.len(),
{
    if toks.len() > 0 {
        match toks[0] {
            InlineV::Text(_) => lemma_resolve_len(toks.drop_first(), open),
            InlineV::NewLine => lemma_resolve_len(toks.drop_first(), open),
            InlineV::Link { .. } => lemma_resolve_len(toks.drop_first(), open),
            InlineV::ModFlag(m) => {
                if !open.contains(m) {
                    lemma_resolve_len(toks.drop_first(), open.insert(m));
                    let (rem1, _) = resolve_s(toks.drop_first(), open.insert(m));
                    if rem1.len() > 0 && rem1[0] == InlineV::ModFlag(m) && rem1.len()
                        < toks.len() {
                        lemma_resolve_len(rem1.drop_first(), open);
                    }
                }
            },
        }
    }
}

/// What the resolver leaves unconsumed is a suffix of its input.
pub proof fn lemma_resolve_suffix(toks: Seq<InlineV>, open: Set<TurboTextMod>)
    ensures
        resolve_s(toks, open).0 == toks.skip(toks.len() - resolve_s(toks, open).0.len()),
    decreases toks.len(),
{
    lemma_resolve_len(toks, open);
    if toks.len() > 0 {
        let rest = toks.drop_first();
        assert(rest =~= toks.skip(1));
        match toks[0] {
            InlineV::Text(_) | InlineV::NewLine | InlineV::Link { .. } => {
                lemma_resolve_suffix(rest, open);
                lemma_resolve_len(rest, open);
                let (rem, _) = resolve_s(rest, open);
                assert(rest.skip(rest.len() - rem.len()) =~= toks.skip(
                    toks.len() - rem.len(),
                ));
            },
            InlineV::ModFlag(m) => {
                if open.contains(m) {
                    assert(toks =~= toks.skip(0));
                } else {
                    lemma_resolve_suffix(rest, open.insert(m));
                    lemma_resolve_len(rest, open.insert(m));
                    let (rem1, _) = resolve_s(rest, open.insert(m));
                    assert(rest.skip(rest.len() - rem1.len()) =~= toks.skip(
                        toks.len() - rem1.len(),
                    ));
                    if rem1.len() > 0 && rem1[0] == InlineV::ModFlag(m) && rem1.len()
                        < toks.len() {
                        assert(rem1.drop_first() =~= toks.skip(toks.len() - rem1.len() + 1));
                        lemma_resolve_suffix(rem1.drop_first(), open);
                        lemma_resolve_len(rem1.drop_first(), open);
                        let (rem2, _) = resolve_s(rem1.drop_first(), open);
                        assert(rem1.drop_first().skip(rem1.drop_first().len() - rem2.len())
                            =~= toks.skip(toks.len() - rem2.len()));
                    }
                }
            },
        }
    }
}

/// The span with further sibling spans appended to its container; a leaf is
/// left as it is.
pub open spec fn append_spans(t: TextV, sp: Seq<TextV>) -> TextV {
    match t {
        TextV::Container(c) => TextV::Container(c + sp),
        TextV::Mod { kind, text } => TextV::Mod { kind, text: text + sp },
        _ => t,
    }
}

/// Appending one span commutes with the span-sequence view.
pub proof fn lemma_texts_view_push(s: Seq<crate::ast::TurboText>, x: crate::ast::TurboText)
    ensures
        texts_view(s.push(x)) == texts_view(s).push(text_view(x)),
{
    lemma_texts_view(s.push(x));
    lemma_texts_view(s);
    assert(texts_view(s.push(x)) =~= texts_view(s).push(text_view(x)));
}

/// Model of an active list scope.
pub struct ListSettingV {
    pub kind: ListKind,
    pub nesting_counter: int,
}

/// The spans a token list resolves to when no modifier kind is open.
pub open spec fn resolve_spans(text: Seq<InlineV>) -> Seq<TextV> {
    resolve_s(text, Set::empty()).1
}

/// The structural size of one event; nested list content counts towards it.
pub open spec fn event_size(t: EventV) -> nat
    decreases t,
{
    match t {
        EventV::Root(c) => 1 + events_size(c),
        EventV::ListElemStart { content, .. } => 1 + events_size(content),
        _ => 1,
    }
}

/// The structural size of an event sequence.
pub open spec fn events_size(s: Seq<EventV>) -> nat
    decreases s,
{
    if s.len() == 0 {
        0
    } else {
        event_size(s[0]) + events_size(s.drop_first())
    }
}

/// A sequence is at least as large as any one of its events.
pub proof fn lemma_events_size_elem(s: Seq<EventV>, i: int)
    requires
        0 <= i < s.len(),
    ensures
        events_size(s) >= event_size(s[i]),
    decreases i,
{
    if i > 0 {
        lemma_events_size_elem(s.drop_first(), i - 1);
    }
}

/// The tail of a paragraph: every immediately following line at exactly the
/// same indentation is merged in, each preceded by one separating space span.
/// Returns the index of the first event not merged and the merged spans.
pub open spec fn para_tail(events: Seq<EventV>, idx: int, ident: int) -> (int, Seq<TextV>)
    decreases events.len() - idx,
{
    if idx < 0 || idx >= events.len() {
        (idx, Seq::empty())
    } else {
        match events[idx] {
            EventV::Line { ident: id2, text } => {
                if id2 == ident {
                    let (e, sp) = para_tail(events, idx + 1, ident);
                    (e, seq![TextV::Plain(" "@)] + resolve_spans(text) + sp)
                } else {
                    (idx, Seq::empty())
                }
            },
            _ => (idx, Seq::empty()),
        }
    }
}

/// The first position in a gathered item run that holds a list item; nodes
/// before it were produced by over-eager nested recursion and belong to the
/// first item of the list, not to the list itself.
pub open spec fn split_index(items: Seq<TreeV>) -> int
    decreases items.len(),
{
    if items.len() == 0 {
        0
    } else if items[0] is ListItem {
        0
    } else {
        1 + split_index(items.drop_first())
    }
}

/// Nothing before the split position is a list item, and the position either
/// sits on the first list item or at the end of the run.
pub proof fn lemma_split_index(items: Seq<TreeV>)
    ensures
        0 <= split_index(items) <= items.len(),
        forall|j: int| 0 <= j < split_index(items) ==> !(items[j] is ListItem),
        split_index(items) < items.len() ==> items[split_index(items)] is ListItem,
    decreases items.len(),
{
    if items.len() == 0 {
    } else if items[0] is ListItem {
    } else {
        lemma_split_index(items.drop_first());
        assert forall|j: int| 0 <= j < split_index(items) implies !(items[j] is ListItem) by {
            if j > 0 {
                assert(items[j] == items.drop_first()[j - 1]);
            }
        }
        if split_index(items) < items.len() {
            assert(items[split_index(items)] == items.drop_first()[split_index(items) - 1]);
        }
    }
}

/// One step of the block tree assembler at cursor `current`, inside a scope
/// with governing indent `gov` and, inside a list, the active list scope.
///
/// The result is the new cursor and the assembled node, or `None` where the
/// event belongs to an enclosing scope and control returns to the caller.
/// The rules, event by event:
/// - a heading, rule, blank, code block or include becomes its single node,
///   unless a list scope is active and its indent does not exceed `gov`;
/// - an accepted text line greedily merges every following line at the same
///   indent into one paragraph (`para_tail`);
/// - a list item start opens a scope: its attached content is assembled in a
///   fresh scope as the first child, following events are gathered by
///   `collect_siblings`, and at scope end the nodes gathered ahead of the
///   first sibling item are split off into the first item's children. A
///   later item start extends the scope as a sibling only at the same indent
///   with the same kind and the counter within bound; a kind change at equal
///   indent (like a shallower indent) hands control back, so it closes the
///   current list and a new one opens.
pub open spec fn assemble_at(
    events: Seq<EventV>,
    current: int,
    gov: int,
    ls: Option<ListSettingV>,
) -> (int, Option<TreeV>)
    decreases events_size(events), events.len() - current, 0int,
{
    if current < 0 || current >= events.len() {
        (current, None)
    } else {
        match events[current] {
            EventV::Header { ident, size, text } => {
                if ls is Some && ident <= gov {
                    (current + 1, None)
                } else {
                    (
                        current + 1,
                        Some(
                            TreeV::Heading {
                                size,
                                text: TextV::Container(resolve_spans(text)),
                            },
                        ),
                    )
                }
            },
            EventV::Horizontal => (current + 1, Some(TreeV::Horizontal)),
            EventV::Empty => (current + 1, Some(TreeV::Empty)),
            EventV::Line { ident, text } => {
                if (ls is Some && ident <= gov) || (ls is None && ident != gov) {
                    (current + 1, None)
                } else {
                    let (e, extra) = para_tail(events, current + 1, ident);
                    (e, Some(TreeV::Text(TextV::Container(resolve_spans(text) + extra))))
                }
            },
            EventV::ListElemStart { ident, kind, check, content } => {
                if ls is Some && ((ident == gov && (ls->0.nesting_counter > 1 || ls->0.kind
                    != kind)) || ident < gov) {
                    (current, None)
                } else {
                    proof {
                        lemma_events_size_elem(events, current);
                    }
                    let first = assemble_at(content, 0, 0, None).1;
                    let first_item = if first is Some {
                        first->0
                    } else {
                        vstd::pervasive::arbitrary()
                    };
                    let nc: int = if ls is Some && ident == gov && ls->0.kind == kind {
                        ls->0.nesting_counter
                    } else {
                        0
                    };
                    let (end, rest) = collect_siblings(events, current + 1, ident, kind, nc + 1);
                    let items = seq![first_item] + rest;
                    if ls is Some && ident == gov {
                        (end, Some(TreeV::ListItem { check, items }))
                    } else {
                        let si = split_index(items);
                        (
                            end,
                            Some(
                                TreeV::List {
                                    kind,
                                    items: seq![
                                        TreeV::ListItem { check, items: items.take(si) },
                                    ] + items.skip(si),
                                },
                            ),
                        )
                    }
                }
            },
            EventV::Code { ident, code } => {
                if ls is Some && ident is Some && ident->0 <= gov {
                    (current, None)
                } else {
                    (current + 1, Some(TreeV::Code(code)))
                }
            },
            EventV::Include { ident, path } => {
                if ls is Some && ident <= gov {
                    (current, None)
                } else {
                    (current + 1, Some(TreeV::Include(path)))
                }
            },
            EventV::Root(_) => (current + 1, None),
        }
    }
}

/// Gathers the events following a list item start into sibling nodes, one
/// `assemble_at` step each, until a step hands control back. Returns the
/// cursor after the run and the gathered nodes.
///
/// The guard on cursor progress only serves termination;
/// `lemma_assemble_range` shows it always holds.
pub open spec fn collect_siblings(
    events: Seq<EventV>,
    idx: int,
    gov: int,
    kind: ListKind,
    nc: int,
) -> (int, Seq<TreeV>)
    decreases events_size(events), events.len() - idx, 1int,
{
    if idx < 0 || idx >= events.len() {
        (idx, Seq::empty())
    } else {
        let (nxt, item) = assemble_at(
            events,
            idx,
            gov,
            Some(ListSettingV { kind, nesting_counter: nc }),
        );
        match item {
            None => (idx, Seq::empty()),
            Some(it) => {
                if idx < nxt && nxt <= events.len() {
                    let (end, rest) = collect_siblings(events, nxt, gov, kind, nc);
                    (end, seq![it] + rest)
                } else {
                    (nxt, seq![it])
                }
            },
        }
    }
}

/// The paragraph tail never runs backwards nor past the end.
pub proof fn lemma_para_tail_range(events: Seq<EventV>, idx: int, ident: int)
    requires
        0 <= idx,
    ensures
        ({
            let (e, _) = para_tail(events, idx, ident);
            idx <= e && (idx <= events.len() ==> e <= events.len())
        }),
    decreases events.len() - idx,
{
    if 0 <= idx < events.len() {
        match events[idx] {
            EventV::Line { ident: id2, text } => {
                if id2 == ident {
                    lemma_para_tail_range(events, idx + 1, ident);
                }
            },
            _ => {},
        }
    }
}

/// One assembler step never moves the cursor backwards nor past the end, and
/// a consumed event always advances it.
pub proof fn lemma_assemble_range(
    events: Seq<EventV>,
    current: int,
    gov: int,
    ls: Option<ListSettingV>,
)
    requires
        0 <= current < events.len(),
    ensures
        ({
            let (nxt, item) = assemble_at(events, current, gov, ls);
            &&& current <= nxt <= events.len()
            &&& (item is Some ==> current < nxt)
        }),
    decreases events_size(events), events.len() - current, 0int,
{
    match events[current] {
        EventV::Line { ident, text } => {
            if !((ls is Some && ident <= gov) || (ls is None && ident != gov)) {
                lemma_para_tail_range(events, current + 1, ident);
            }
        },
        EventV::ListElemStart { ident, kind, check, content } => {
            if !(ls is Some && ((ident == gov && (ls->0.nesting_counter > 1 || ls->0.kind
                != kind)) || ident < gov)) {
                lemma_events_size_elem(events, current);
                let nc: int = if ls is Some && ident == gov && ls->0.kind == kind {
                    ls->0.nesting_counter
                } else {
                    0
                };
                lemma_collect_range(events, current + 1, ident, kind, nc + 1);
            }
        },
        _ => {},
    }
}

/// The sibling gatherer never moves the cursor backwards nor past the end.
pub proof fn lemma_collect_range(events: Seq<EventV>, idx: int, gov: int, kind: ListKind, nc: int)
    requires
        0 <= idx,
    ensures
        ({
            let (end, _) = collect_siblings(events, idx, gov, kind, nc);
            idx <= end && (idx <= events.len() ==> end <= events.len())
        }),
    decreases events_size(events), events.len() - idx, 1int,
{
    if 0 <= idx < events.len() {
        lemma_assemble_range(events, idx, gov, Some(ListSettingV { kind, nesting_counter: nc }));
        let (nxt, item) = assemble_at(
            events,
            idx,
            gov,
            Some(ListSettingV { kind, nesting_counter: nc }),
        );
        match item {
            None => {},
            Some(_) => {
                if idx < nxt && nxt <= events.len() {
                    lemma_collect_range(events, nxt, gov, kind, nc);
                }
            },
        }
    }
}

/// A single event is well formed: it is not a nested stream root, and a list
/// item start carries well-formed content whose assembly yields a first
/// child. The assembler's input contract.
pub open spec fn event_wf(e: EventV) -> bool
    decreases e,
{
    match e {
        EventV::Root(_) => false,
        EventV::ListElemStart { content, .. } => {
            &&& events_wf(content)
            &&& 0 < content.len() < usize::MAX
            &&& assemble_at(content, 0, 0, None).1 is Some
        },
        _ => true,
    }
}

/// Every event of the sequence is well formed.
pub open spec fn events_wf(s: Seq<EventV>) -> bool
    decreases s,
{
    if s.len() == 0 {
        true
    } else {
        event_wf(s[0]) && events_wf(s.drop_first())
    }
}

/// Well-formedness of a sequence is elementwise.
pub proof fn lemma_events_wf_elem(s: Seq<EventV>, i: int)
    requires
        events_wf(s),
        0 <= i < s.len(),
    ensures
        event_wf(s[i]),
    decreases i,
{
    if i > 0 {
        lemma_events_wf_elem(s.drop_first(), i - 1);
    }
}

/// A sequence each of whose events is well formed is well formed.
pub proof fn lemma_events_wf_all(s: Seq<EventV>)
    requires
        forall|i: int| 0 <= i < s.len() ==> event_wf(s[i]),
    ensures
        events_wf(s),
    decreases s.len(),
{
    if s.len() > 0 {
        assert forall|i: int| 0 <= i < s.drop_first().len() implies event_wf(
            s.drop_first()[i],
        ) by {
            assert(s.drop_first()[i] == s[i + 1]);
        }
        lemma_events_wf_all(s.drop_first());
    }
}

/// At the top level every step must consume its event: the stream root has
/// no enclosing scope left to hand control back to.
pub open spec fn root_ok(events: Seq<EventV>, idx: int) -> bool
    decreases events.len() - idx,
{
    if idx < 0 || idx >= events.len() {
        true
    } else {
        let (nxt, item) = assemble_at(events, idx, 0, None);
        &&& item is Some
        &&& (idx < nxt && nxt <= events.len() ==> root_ok(events, nxt))
    }
}

/// The children of the document root: repeated assembler steps over the
/// whole stream, one child per step.
pub open spec fn assemble_root(events: Seq<EventV>, idx: int) -> Seq<TreeV>
    decreases events.len() - idx,
{
    if idx < 0 || idx >= events.len() {
        Seq::empty()
    } else {
        let (nxt, item) = assemble_at(events, idx, 0, None);
        let node = if item is Some {
            item->0
        } else {
            vstd::pervasive::arbitrary()
        };
        if idx < nxt && nxt <= events.len() {
            seq![node] + assemble_root(events, nxt)
        } else {
            seq![node]
        }
    }
}

pub open spec fn setting_view(s: Option<crate::ast::ListSetting>) -> Option<ListSettingV> {
    match s {
        Some(s) => Some(
            ListSettingV { kind: s.kind, nesting_counter: s.nesting_counter as int },
        ),
        None => None,
    }
}

} // verus!

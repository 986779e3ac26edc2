//! Proved laws of the assembler and the resolver: how a run of text lines
//! merges, what the empty and one-blank streams assemble to, how a list run
//! distributes into one item per sibling with deeper runs nested under the
//! preceding item, that a kind change at equal indent starts a new list,
//! that resolved spans never nest a kind inside itself, and that
//! re-resolving a flattened span run reproduces it.
use vstd::prelude::*;

verus! {

use crate::model::{
    assemble_at, assemble_root, collect_siblings, event_wf, events_wf, para_tail, resolve_s,
    resolve_spans, root_ok, EventV, InlineV, ListSettingV, TextV, TreeV,
};
use crate::{ListKind, TurboTextMod};

/// The inline tokens a text line event carries.
pub open spec fn line_text(e: EventV) -> Seq<InlineV> {
    match e {
        EventV::Line { text, .. } => text,
        _ => Seq::empty(),
    }
}

/// The resolved lines from position `i` on, each preceded by one separating
/// space span.
pub open spec fn space_joined(events: Seq<EventV>, i: int) -> Seq<TextV>
    decreases events.len() - i,
{
    if i < 0 || i >= events.len() {
        Seq::empty()
    } else {
        seq![TextV::Plain(" "@)] + resolve_spans(line_text(events[i])) + space_joined(
            events,
            i + 1,
        )
    }
}

/// Over a run of text lines sharing one indent, the paragraph tail consumes
/// the whole run and yields the space-joined resolved lines.
proof fn lemma_para_tail_run(events: Seq<EventV>, i: int, ident: int)
    requires
        0 <= i <= events.len(),
        forall|j: int| 0 <= j < events.len() ==> events[j] == (EventV::Line {
            ident,
            text: line_text(events[j]),
        }),
    ensures
        para_tail(events, i, ident) == (events.len() as int, space_joined(events, i)),
    decreases events.len() - i,
{
    if i < events.len() {
        lemma_para_tail_run(events, i + 1, ident);
    }
}

/// A run of text line events sharing one indentation assembles to exactly
/// one paragraph node whose content is the lines' resolved tokens,
/// concatenated with one space span between one line and the next, and the
/// run is consumed whole.
pub proof fn lemma_paragraph_run(events: Seq<EventV>, ident: int)
    requires
        events.len() > 0,
        forall|j: int| 0 <= j < events.len() ==> events[j] == (EventV::Line {
            ident,
            text: line_text(events[j]),
        }),
    ensures
        assemble_at(events, 0, ident, None) == (
            events.len() as int,
            Some(
                TreeV::Text(
                    TextV::Container(
                        resolve_spans(line_text(events[0])) + space_joined(events, 1),
                    ),
                ),
            ),
        ),
{
    lemma_para_tail_run(events, 1, ident);
}

/// The token list one resolved span flattens back to: a modifier span turns
/// into its marker pair around its flattened children, a leaf into its one
/// token.
pub open spec fn flatten_span(t: TextV) -> Seq<InlineV>
    decreases t,
{
    match t {
        TextV::Container(c) => flatten_spans(c),
        TextV::Mod { kind, text } => seq![InlineV::ModFlag(kind)] + flatten_spans(text) + seq![
            InlineV::ModFlag(kind),
        ],
        TextV::Link { alias, address } => seq![InlineV::Link { alias, address }],
        TextV::Plain(s) => seq![InlineV::Text(s)],
        TextV::NewLine => seq![InlineV::NewLine],
    }
}

/// The token list a span run flattens back to.
pub open spec fn flatten_spans(s: Seq<TextV>) -> Seq<InlineV>
    decreases s,
{
    if s.len() == 0 {
        Seq::empty()
    } else {
        flatten_span(s[0]) + flatten_spans(s.drop_first())
    }
}

/// One span is well nested under the open kinds `open`: it is no bare
/// container, and a modifier span's kind is not already open around it.
pub open spec fn span_wf(t: TextV, open: Set<TurboTextMod>) -> bool
    decreases t,
{
    match t {
        TextV::Container(_) => false,
        TextV::Mod { kind, text } => !open.contains(kind) && spans_wf(text, open.insert(kind)),
        _ => true,
    }
}

/// Every span of the run is well nested under `open`.
pub open spec fn spans_wf(s: Seq<TextV>, open: Set<TurboTextMod>) -> bool
    decreases s,
{
    if s.len() == 0 {
        true
    } else {
        span_wf(s[0], open) && spans_wf(s.drop_first(), open)
    }
}

/// Resolving the flattening of a well-nested span run reproduces the run
/// exactly and hands any following tokens on untouched.
proof fn lemma_resolve_flatten(spans: Seq<TextV>, open: Set<TurboTextMod>, extra: Seq<InlineV>)
    requires
        spans_wf(spans, open),
    ensures
        ({
            let (rem, sp) = resolve_s(flatten_spans(spans) + extra, open);
            let (rem2, sp2) = resolve_s(extra, open);
            &&& rem == rem2
            &&& sp == spans + sp2
        }),
    decreases spans,
{
    let toks = flatten_spans(spans) + extra;
    let (rem2, sp2) = resolve_s(extra, open);
    if spans.len() == 0 {
        assert(toks =~= extra);
        assert(spans + sp2 =~= sp2);
    } else {
        let rest = spans.drop_first();
        assert(span_wf(spans[0], open));
        assert(spans_wf(rest, open));
        assert(flatten_spans(spans) == flatten_span(spans[0]) + flatten_spans(rest));
        match spans[0] {
            TextV::Plain(s) => {
                assert(flatten_span(spans[0]) == seq![InlineV::Text(s)]);
                assert(toks =~= seq![InlineV::Text(s)] + (flatten_spans(rest) + extra));
                assert(toks[0] == InlineV::Text(s));
                assert(toks.drop_first() =~= flatten_spans(rest) + extra);
                lemma_resolve_flatten(rest, open, extra);
                assert(seq![TextV::Plain(s)] + (rest + sp2) =~= spans + sp2);
            },
            TextV::NewLine => {
                assert(flatten_span(spans[0]) == seq![InlineV::NewLine]);
                assert(toks =~= seq![InlineV::NewLine] + (flatten_spans(rest) + extra));
                assert(toks[0] == InlineV::NewLine);
                assert(toks.drop_first() =~= flatten_spans(rest) + extra);
                lemma_resolve_flatten(rest, open, extra);
                assert(seq![TextV::NewLine] + (rest + sp2) =~= spans + sp2);
            },
            TextV::Link { alias, address } => {
                assert(flatten_span(spans[0]) == seq![InlineV::Link { alias, address }]);
                assert(toks =~= seq![InlineV::Link { alias, address }] + (flatten_spans(rest)
                    + extra));
                assert(toks[0] == InlineV::Link { alias, address });
                assert(toks.drop_first() =~= flatten_spans(rest) + extra);
                lemma_resolve_flatten(rest, open, extra);
                assert(seq![TextV::Link { alias, address }] + (rest + sp2) =~= spans + sp2);
            },
            TextV::Mod { kind, text } => {
                assert(flatten_span(spans[0]) == seq![InlineV::ModFlag(kind)] + flatten_spans(
                    text,
                ) + seq![InlineV::ModFlag(kind)]);
                let extra2 = seq![InlineV::ModFlag(kind)] + flatten_spans(rest) + extra;
                assert(toks =~= seq![InlineV::ModFlag(kind)] + (flatten_spans(text) + extra2));
                assert(toks[0] == InlineV::ModFlag(kind));
                assert(!open.contains(kind));
                assert(toks.drop_first() =~= flatten_spans(text) + extra2);
                assert(decreases_to!(spans => spans[0]));
                assert(decreases_to!(spans => text));
                lemma_resolve_flatten(text, open.insert(kind), extra2);
                assert(extra2[0] == InlineV::ModFlag(kind));
                assert(open.insert(kind).contains(kind));
                let (remi, spi) = resolve_s(extra2, open.insert(kind));
                assert(remi == extra2);
                assert(spi =~= Seq::<TextV>::empty());
                let (rem1, inner) = resolve_s(toks.drop_first(), open.insert(kind));
                assert(rem1 == extra2);
                assert(inner == text + spi);
                assert(inner =~= text);
                assert(rem1.len() > 0);
                assert(rem1[0] == InlineV::ModFlag(kind));
                assert(rem1.len() < toks.len());
                assert(rem1.drop_first() =~= flatten_spans(rest) + extra);
                lemma_resolve_flatten(rest, open, extra);
                assert(seq![TextV::Mod { kind, text }] + (rest + sp2) =~= spans + sp2);
            },
            TextV::Container(_) => {
                assert(false);
            },
        }
    }
}

/// Whatever the tokens, the resolved span run is well nested under the open
/// kinds around it.
proof fn lemma_resolve_wf(toks: Seq<InlineV>, open: Set<TurboTextMod>)
    ensures
        spans_wf(resolve_s(toks, open).1, open),
    decreases toks.len(),
{
    if toks.len() > 0 {
        match toks[0] {
            InlineV::Text(s) => {
                lemma_resolve_wf(toks.drop_first(), open);
                let (rem, sp) = resolve_s(toks.drop_first(), open);
                let all = seq![TextV::Plain(s)] + sp;
                assert(all[0] == TextV::Plain(s));
                assert(all.drop_first() =~= sp);
                assert(span_wf(all[0], open));
                assert(spans_wf(all, open));
                assert(resolve_s(toks, open).1 == all);
            },
            InlineV::NewLine => {
                lemma_resolve_wf(toks.drop_first(), open);
                let (rem, sp) = resolve_s(toks.drop_first(), open);
                let all = seq![TextV::NewLine] + sp;
                assert(all[0] == TextV::NewLine);
                assert(all.drop_first() =~= sp);
                assert(span_wf(all[0], open));
                assert(spans_wf(all, open));
                assert(resolve_s(toks, open).1 == all);
            },
            InlineV::Link { alias, address } => {
                lemma_resolve_wf(toks.drop_first(), open);
                let (rem, sp) = resolve_s(toks.drop_first(), open);
                let all = seq![TextV::Link { alias, address }] + sp;
                assert(all[0] == TextV::Link { alias, address });
                assert(all.drop_first() =~= sp);
                assert(span_wf(all[0], open));
                assert(spans_wf(all, open));
                assert(resolve_s(toks, open).1 == all);
            },
            InlineV::ModFlag(m) => {
                if !open.contains(m) {
                    lemma_resolve_wf(toks.drop_first(), open.insert(m));
                    let (rem1, inner) = resolve_s(toks.drop_first(), open.insert(m));
                    let md = TextV::Mod { kind: m, text: inner };
                    assert(span_wf(md, open));
                    if rem1.len() > 0 && rem1[0] == InlineV::ModFlag(m) && rem1.len()
                        < toks.len() {
                        lemma_resolve_wf(rem1.drop_first(), open);
                        let (rem2, rest) = resolve_s(rem1.drop_first(), open);
                        let all = seq![md] + rest;
                        assert(all[0] == md);
                        assert(all.drop_first() =~= rest);
                        assert(spans_wf(all, open));
                        assert(resolve_s(toks, open).1 == all);
                    } else {
                        let all = seq![md];
                        assert(all[0] == md);
                        assert(all.drop_first() =~= Seq::<TextV>::empty());
                        assert(spans_wf(Seq::<TextV>::empty(), open));
                        assert(spans_wf(all, open));
                        assert(resolve_s(toks, open).1 == all);
                    }
                }
            },
        }
    }
}

/// A modifier span never holds another span of its own kind anywhere below
/// it: the resolved run of any token list is well nested, so same-kind
/// self-nesting is structurally impossible and nesting depth counts only
/// properly nested distinct kinds.
pub proof fn lemma_no_self_nesting(toks: Seq<InlineV>)
    ensures
        spans_wf(resolve_spans(toks), Set::empty()),
{
    lemma_resolve_wf(toks, Set::empty());
}

/// Flattening a resolved span run back to tokens and re-resolving
/// reproduces the run exactly, for every token list.
pub proof fn lemma_resolve_idempotent(toks: Seq<InlineV>)
    ensures
        resolve_spans(flatten_spans(resolve_spans(toks))) == resolve_spans(toks),
{
    let spans = resolve_spans(toks);
    lemma_resolve_wf(toks, Set::empty());
    lemma_resolve_flatten(spans, Set::empty(), Seq::empty());
    assert(flatten_spans(spans) + Seq::<InlineV>::empty() =~= flatten_spans(spans));
    assert(resolve_s(Seq::<InlineV>::empty(), Set::<TurboTextMod>::empty()).1
        =~= Seq::<TextV>::empty());
    assert(spans + Seq::<TextV>::empty() =~= spans);
}

/// The assembled tree of the content a list item start carries.
pub open spec fn first_child(e: EventV) -> TreeV {
    match e {
        EventV::ListElemStart { content, .. } => match assemble_at(content, 0, 0, None).1 {
            Some(t) => t,
            None => vstd::pervasive::arbitrary(),
        },
        _ => vstd::pervasive::arbitrary(),
    }
}

/// The check mark a list item start carries.
pub open spec fn item_check(e: EventV) -> Option<bool> {
    match e {
        EventV::ListElemStart { check, .. } => check,
        _ => None,
    }
}

/// A well-formed list item start at indent `d` with kind `k`.
pub open spec fn flat_evt(e: EventV, d: int, k: ListKind) -> bool {
    match e {
        EventV::ListElemStart { ident, kind, .. } => ident == d && kind == k && event_wf(e),
        _ => false,
    }
}

/// A list item start that ends a run gathered at governing indent `d` with
/// kind `k`: one announced below `d`, or one at `d` of another kind.
pub open spec fn stops_run(e: EventV, d: int, k: ListKind) -> bool {
    match e {
        EventV::ListElemStart { ident, kind, .. } => ident < d || (ident == d && kind != k),
        _ => false,
    }
}

/// A run-ending item start hands control straight back to the caller.
proof fn lemma_stopper_none(events: Seq<EventV>, e: int, d: int, k: ListKind, nc: int)
    requires
        0 <= e < events.len(),
        stops_run(events[e], d, k),
    ensures
        assemble_at(events, e, d, Some(ListSettingV { kind: k, nesting_counter: nc })) == (
            e,
            None::<TreeV>,
        ),
{
    match events[e] {
        EventV::ListElemStart { ident, kind, .. } => {},
        _ => {
            assert(false);
        },
    }
}

/// The items a flat run over the positions `i` up to `e` yields: one list
/// item per event, each holding just the event's own content.
pub open spec fn flat_items(events: Seq<EventV>, i: int, e: int) -> Seq<TreeV>
    decreases e - i,
{
    if i < 0 || i >= e || e > events.len() {
        Seq::empty()
    } else {
        seq![
            TreeV::ListItem {
                check: item_check(events[i]),
                items: seq![first_child(events[i])],
            },
        ] + flat_items(events, i + 1, e)
    }
}

/// The expected items of a flat run, elementwise.
proof fn lemma_flat_items_index(events: Seq<EventV>, i: int, e: int)
    requires
        0 <= i <= e <= events.len(),
    ensures
        flat_items(events, i, e).len() == e - i,
        forall|j: int| i <= j < e ==> flat_items(events, i, e)[j - i] == (TreeV::ListItem {
            check: item_check(events[j]),
            items: seq![first_child(events[j])],
        }),
    decreases e - i,
{
    if i < e {
        lemma_flat_items_index(events, i + 1, e);
    }
}

/// Outside any list scope one assembler step never yields a bare list item.
proof fn lemma_assemble_scopeless_not_item(events: Seq<EventV>, current: int, gov: int)
    requires
        0 <= current < events.len(),
    ensures
        ({
            let (_, item) = assemble_at(events, current, gov, None);
            item is Some ==> !(item->0 is ListItem)
        }),
{
}

/// Over a flat run reaching up to `e`, the sibling gatherer stops exactly at
/// `e` and yields one list item per event, each holding just its own
/// content: the scope counter cuts every sibling's own nested gathering off
/// at once, and an item start announced below the governing indent or with
/// another kind at it ends the run unconsumed.
proof fn lemma_collect_flat(events: Seq<EventV>, i: int, e: int, d: int, k: ListKind)
    requires
        1 <= i <= e <= events.len(),
        forall|j: int| i <= j < e ==> flat_evt(events[j], d, k),
        e < events.len() ==> stops_run(events[e], d, k),
    ensures
        collect_siblings(events, i, d, k, 1) == (e, flat_items(events, i, e)),
    decreases e - i,
{
    if i == e {
        if e < events.len() {
            lemma_stopper_none(events, e, d, k, 1);
        }
    } else {
        assert(flat_evt(events[i], d, k));
        let (nxt, item) = assemble_at(
            events,
            i,
            d,
            Some(ListSettingV { kind: k, nesting_counter: 1 }),
        );
        if i + 1 < e {
            assert(flat_evt(events[i + 1], d, k));
            match events[i + 1] {
                EventV::ListElemStart { ident, kind, .. } => {
                    assert(ident == d && kind == k);
                },
                _ => {
                    assert(false);
                },
            }
            assert(assemble_at(
                events,
                i + 1,
                d,
                Some(ListSettingV { kind: k, nesting_counter: 2 }),
            ) == (i + 1, None::<TreeV>));
        } else if i + 1 == e && e < events.len() {
            lemma_stopper_none(events, e, d, k, 2);
        }
        assert(collect_siblings(events, i + 1, d, k, 2) == (i + 1, Seq::<TreeV>::empty()));
        match events[i] {
            EventV::ListElemStart { ident, kind, check, content } => {
                assert(ident == d && kind == k);
                let first = first_child(events[i]);
                assert(assemble_at(content, 0, 0, None).1 is Some);
                assert(first == assemble_at(content, 0, 0, None).1->0);
                assert(item == Some(
                    TreeV::ListItem { check, items: seq![first] + Seq::<TreeV>::empty() },
                ));
                assert(seq![first] + Seq::<TreeV>::empty() =~= seq![first]);
                assert(nxt == i + 1);
            },
            _ => {
                assert(false);
            },
        }
        lemma_collect_flat(events, i + 1, e, d, k);
        assert(seq![
            TreeV::ListItem {
                check: item_check(events[i]),
                items: seq![first_child(events[i])],
            },
        ] + flat_items(events, i + 1, e) == flat_items(events, i, e));
    }
}

/// A run of same-kind list item starts sharing one indent, reaching from
/// `p` up to the run's end `e`, assembles to one list with exactly one item
/// per event of the run, in order, each item holding just that event's own
/// content; the run is consumed whole and nothing beyond it.
pub proof fn lemma_flat_list_run(
    events: Seq<EventV>,
    p: int,
    e: int,
    d: int,
    k: ListKind,
    gov: int,
    ls: Option<ListSettingV>,
)
    requires
        0 <= p < e <= events.len(),
        forall|j: int| p <= j < e ==> flat_evt(events[j], d, k),
        e < events.len() ==> stops_run(events[e], d, k),
        ls is Some ==> gov < d,
    ensures
        ({
            let (nxt, item) = assemble_at(events, p, gov, ls);
            &&& nxt == e
            &&& item == Some(TreeV::List { kind: k, items: flat_items(events, p, e) })
            &&& flat_items(events, p, e).len() == e - p
            &&& forall|j: int| p <= j < e ==> flat_items(events, p, e)[j - p]
                == (TreeV::ListItem {
                check: item_check(events[j]),
                items: seq![first_child(events[j])],
            })
        }),
{
    assert(flat_evt(events[p], d, k));
    lemma_flat_items_index(events, p, e);
    lemma_collect_flat(events, p + 1, e, d, k);
    match events[p] {
        EventV::ListElemStart { ident, kind, check, content } => {
            assert(event_wf(events[p]));
            let first = first_child(events[p]);
            lemma_assemble_scopeless_not_item(content, 0, 0);
            assert(!(first is ListItem));
            let items = seq![first] + flat_items(events, p + 1, e);
            crate::model::lemma_split_index(items);
            lemma_flat_items_index(events, p + 1, e);
            assert(items[0] == first);
            assert forall|j: int| 1 <= j < items.len() implies items[j] is ListItem by {
                assert(items[j] == flat_items(events, p + 1, e)[j - 1]);
                assert(flat_items(events, p + 1, e)[j - 1] == (TreeV::ListItem {
                    check: item_check(events[j + p]),
                    items: seq![first_child(events[j + p])],
                }));
            }
            let si = crate::model::split_index(items);
            if si == 0 {
                assert(items[0] is ListItem);
            }
            if si > 1 {
                assert(!(items[1] is ListItem));
            }
            assert(si == 1 || (si == items.len() && items.len() == 1));
            assert(items.take(si) =~= seq![first]);
            assert(seq![TreeV::ListItem { check, items: items.take(si) }] + items.skip(si)
                =~= flat_items(events, p, e));
        },
        _ => {
            assert(false);
        },
    }
}

/// A kind change at equal indent closes the current list and opens a new
/// one: two adjacent equal-indent runs of different kinds assemble to two
/// adjacent lists, one per run, and no list mixes kinds.
pub proof fn lemma_kind_change_run(
    events: Seq<EventV>,
    d: int,
    k1: ListKind,
    k2: ListKind,
    n1: int,
    gov: int,
)
    requires
        0 < n1 < events.len(),
        k1 != k2,
        forall|j: int| 0 <= j < n1 ==> flat_evt(events[j], d, k1),
        forall|j: int| n1 <= j < events.len() ==> flat_evt(events[j], d, k2),
    ensures
        ({
            let n = events.len() as int;
            let first_list = TreeV::List { kind: k1, items: flat_items(events, 0, n1) };
            let second_list = TreeV::List { kind: k2, items: flat_items(events, n1, n) };
            &&& assemble_at(events, 0, gov, None) == (n1, Some(first_list))
            &&& assemble_at(events, n1, gov, None) == (n, Some(second_list))
            &&& assemble_root(events, 0) == seq![first_list, second_list]
        }),
{
    let n = events.len() as int;
    assert(flat_evt(events[n1], d, k2));
    assert(stops_run(events[n1], d, k1));
    lemma_flat_list_run(events, 0, n1, d, k1, gov, None);
    lemma_flat_list_run(events, n1, n, d, k2, gov, None);
    if gov != 0 {
        lemma_flat_list_run(events, 0, n1, d, k1, 0, None);
        lemma_flat_list_run(events, n1, n, d, k2, 0, None);
    }
    let first_list = TreeV::List { kind: k1, items: flat_items(events, 0, n1) };
    let second_list = TreeV::List { kind: k2, items: flat_items(events, n1, n) };
    assert(assemble_at(events, 0, 0, None) == (n1, Some(first_list)));
    assert(assemble_at(events, n1, 0, None) == (n, Some(second_list)));
    assert(assemble_root(events, n) =~= Seq::<TreeV>::empty());
    assert(assemble_root(events, n1) =~= seq![second_list]);
    assert(assemble_root(events, 0) =~= seq![first_list, second_list]);
}

/// One sibling group of a two-level list run: the sibling item start at
/// `start`, followed by its deeper run (empty where `end == start + 1`) at
/// the deeper indent, of kind `deep_kind`.
pub struct RunGroup {
    pub start: int,
    pub end: int,
    pub deep_kind: ListKind,
}

/// The groups tile the range `p` up to `e` of a two-level run: each is
/// headed by one sibling item start at `(d, k)`, and the events between a
/// sibling and the next group are a flat deeper run at `d2` of the group's
/// deeper kind.
pub open spec fn run_groups_wf(
    events: Seq<EventV>,
    groups: Seq<RunGroup>,
    p: int,
    e: int,
    d: int,
    k: ListKind,
    d2: int,
) -> bool
    decreases groups.len(),
{
    if groups.len() == 0 {
        p == e
    } else {
        let g = groups[0];
        &&& g.start == p
        &&& g.start < g.end <= e <= events.len()
        &&& flat_evt(events[g.start], d, k)
        &&& (forall|j: int| g.start + 1 <= j < g.end ==> flat_evt(events[j], d2, g.deep_kind))
        &&& run_groups_wf(events, groups.drop_first(), g.end, e, d, k, d2)
    }
}

/// The items a two-level run yields: one list item per group, holding the
/// group's own content and, where the group has a deeper run, one nested
/// list of exactly that run.
pub open spec fn grouped_items(events: Seq<EventV>, groups: Seq<RunGroup>) -> Seq<TreeV>
    decreases groups.len(),
{
    if groups.len() == 0 {
        Seq::empty()
    } else {
        let g = groups[0];
        let own = seq![first_child(events[g.start])];
        let children = if g.start + 1 < g.end {
            own + seq![
                TreeV::List {
                    kind: g.deep_kind,
                    items: flat_items(events, g.start + 1, g.end),
                },
            ]
        } else {
            own
        };
        seq![TreeV::ListItem { check: item_check(events[g.start]), items: children }]
            + grouped_items(events, groups.drop_first())
    }
}

/// The items of a two-level run, elementwise: one list item per group.
proof fn lemma_grouped_items_index(events: Seq<EventV>, groups: Seq<RunGroup>)
    ensures
        grouped_items(events, groups).len() == groups.len(),
        forall|j: int| 0 <= j < groups.len() ==> grouped_items(events, groups)[j] is ListItem,
    decreases groups.len(),
{
    if groups.len() > 0 {
        lemma_grouped_items_index(events, groups.drop_first());
        assert forall|j: int| 0 <= j < groups.len() implies grouped_items(events, groups)[j]
            is ListItem by {
            if j > 0 {
                assert(grouped_items(events, groups)[j] == grouped_items(
                    events,
                    groups.drop_first(),
                )[j - 1]);
            }
        }
    }
}

/// Over a two-level run the sibling gatherer yields one list item per group,
/// each holding its own content and its own deeper run as one nested list,
/// and stops exactly where the run ends.
proof fn lemma_collect_grouped(
    events: Seq<EventV>,
    groups: Seq<RunGroup>,
    i: int,
    e: int,
    d: int,
    k: ListKind,
    d2: int,
)
    requires
        1 <= i,
        d < d2,
        run_groups_wf(events, groups, i, e, d, k, d2),
        e <= events.len(),
        e < events.len() ==> stops_run(events[e], d, k),
    ensures
        collect_siblings(events, i, d, k, 1) == (e, grouped_items(events, groups)),
    decreases groups.len(),
{
    if groups.len() == 0 {
        if e < events.len() {
            lemma_stopper_none(events, e, d, k, 1);
        }
    } else {
        let g = groups[0];
        assert(flat_evt(events[g.start], d, k));
        // What stands at the end of this group: the next group's sibling,
        // the run's stopper, or the end of input.
        let next_is_sibling: bool = groups.len() > 1;
        if next_is_sibling {
            assert(run_groups_wf(events, groups.drop_first(), g.end, e, d, k, d2));
            assert(groups.drop_first()[0] == groups[1]);
            assert(groups[1].start == g.end);
            assert(flat_evt(events[g.end], d, k));
            assert(g.end < events.len());
        } else {
            assert(run_groups_wf(events, groups.drop_first(), g.end, e, d, k, d2));
            assert(g.end == e);
        }
        // The sibling's own gathering at the tightened counter: it takes in
        // exactly the group's deeper run and hands back at the group's end.
        if g.start + 1 < g.end {
            // The deeper run assembles to one nested list.
            if g.end < events.len() {
                if next_is_sibling {
                    match events[g.end] {
                        EventV::ListElemStart { ident, kind, .. } => {
                            assert(ident == d && kind == k);
                            assert(ident < d2);
                        },
                        _ => {
                            assert(false);
                        },
                    }
                } else {
                    match events[g.end] {
                        EventV::ListElemStart { ident, kind, .. } => {
                            assert(ident < d || ident == d);
                            assert(ident < d2);
                        },
                        _ => {
                            assert(false);
                        },
                    }
                }
                assert(stops_run(events[g.end], d2, g.deep_kind));
            }
            lemma_flat_list_run(
                events,
                g.start + 1,
                g.end,
                d2,
                g.deep_kind,
                d,
                Some(ListSettingV { kind: k, nesting_counter: 2 }),
            );
            // The step after the nested list hands straight back.
            if g.end < events.len() {
                if next_is_sibling {
                    assert(assemble_at(
                        events,
                        g.end,
                        d,
                        Some(ListSettingV { kind: k, nesting_counter: 2 }),
                    ) == (g.end, None::<TreeV>));
                } else {
                    lemma_stopper_none(events, e, d, k, 2);
                }
            }
            assert(collect_siblings(events, g.end, d, k, 2) == (g.end, Seq::<TreeV>::empty()));
            let deep = TreeV::List {
                kind: g.deep_kind,
                items: flat_items(events, g.start + 1, g.end),
            };
            assert(collect_siblings(events, g.start + 1, d, k, 2) == (
                g.end,
                seq![deep] + Seq::<TreeV>::empty(),
            ));
            assert(seq![deep] + Seq::<TreeV>::empty() =~= seq![deep]);
        } else {
            // No deeper run: the step at the group's end hands straight back.
            if g.end < events.len() {
                if next_is_sibling {
                    match events[g.end] {
                        EventV::ListElemStart { ident, kind, .. } => {
                            assert(ident == d && kind == k);
                        },
                        _ => {
                            assert(false);
                        },
                    }
                    assert(assemble_at(
                        events,
                        g.end,
                        d,
                        Some(ListSettingV { kind: k, nesting_counter: 2 }),
                    ) == (g.end, None::<TreeV>));
                } else {
                    lemma_stopper_none(events, e, d, k, 2);
                }
            }
            assert(collect_siblings(events, g.start + 1, d, k, 2) == (
                g.end,
                Seq::<TreeV>::empty(),
            ));
        }
        // The sibling step itself.
        let (nxt, item) = assemble_at(
            events,
            g.start,
            d,
            Some(ListSettingV { kind: k, nesting_counter: 1 }),
        );
        match events[g.start] {
            EventV::ListElemStart { ident, kind, check, content } => {
                assert(ident == d && kind == k);
                let first = first_child(events[g.start]);
                assert(assemble_at(content, 0, 0, None).1 is Some);
                assert(first == assemble_at(content, 0, 0, None).1->0);
                if g.start + 1 < g.end {
                    let deep = TreeV::List {
                        kind: g.deep_kind,
                        items: flat_items(events, g.start + 1, g.end),
                    };
                    assert(item == Some(
                        TreeV::ListItem { check, items: seq![first] + seq![deep] },
                    ));
                    assert(seq![first] + seq![deep] =~= seq![first, deep]);
                    assert(seq![first] + seq![deep] =~= grouped_items(events, groups)[0]
                        ->ListItem_items);
                } else {
                    assert(item == Some(
                        TreeV::ListItem { check, items: seq![first] + Seq::<TreeV>::empty() },
                    ));
                    assert(seq![first] + Seq::<TreeV>::empty() =~= seq![first]);
                }
                assert(nxt == g.end);
            },
            _ => {
                assert(false);
            },
        }
        lemma_collect_grouped(events, groups.drop_first(), g.end, e, d, k, d2);
        assert(seq![grouped_items(events, groups)[0]] + grouped_items(
            events,
            groups.drop_first(),
        ) =~= grouped_items(events, groups));
    }
}

/// A well-formed two-level non-decreasing-indent list run assembles to one
/// list with exactly one item per sibling-level event, in order, and every
/// deeper-indented run attaches as one nested list under the immediately
/// preceding item, never as an item of the outer list.
///
/// The run is one sibling at `(d, k)` with a deeper run up to `e0`, then the
/// remaining sibling groups; the whole run is consumed and nothing beyond it.
pub proof fn lemma_general_list_run(
    events: Seq<EventV>,
    p: int,
    e0: int,
    groups: Seq<RunGroup>,
    e: int,
    d: int,
    k: ListKind,
    kd: ListKind,
    d2: int,
    gov: int,
)
    requires
        0 <= p < e0 <= e <= events.len(),
        d < d2,
        flat_evt(events[p], d, k),
        forall|j: int| p + 1 <= j < e0 ==> flat_evt(events[j], d2, kd),
        run_groups_wf(events, groups, e0, e, d, k, d2),
        e < events.len() ==> stops_run(events[e], d, k),
    ensures
        ({
            let own = seq![first_child(events[p])];
            let children = if p + 1 < e0 {
                own + seq![TreeV::List { kind: kd, items: flat_items(events, p + 1, e0) }]
            } else {
                own
            };
            let items = seq![
                TreeV::ListItem { check: item_check(events[p]), items: children },
            ] + grouped_items(events, groups);
            &&& assemble_at(events, p, gov, None) == (
                e,
                Some(TreeV::List { kind: k, items }),
            )
            &&& items.len() == 1 + groups.len()
        }),
{
    lemma_grouped_items_index(events, groups);
    // The gathering after the first sibling: its deeper run as one nested
    // list, then one list item per further group.
    if p + 1 < e0 {
        if e0 < events.len() {
            if groups.len() > 0 {
                assert(groups[0].start == e0);
                assert(flat_evt(events[e0], d, k));
                match events[e0] {
                    EventV::ListElemStart { ident, kind, .. } => {
                        assert(ident < d2);
                    },
                    _ => {
                        assert(false);
                    },
                }
            } else {
                assert(e0 == e);
                match events[e0] {
                    EventV::ListElemStart { ident, kind, .. } => {
                        assert(ident < d2);
                    },
                    _ => {
                        assert(false);
                    },
                }
            }
            assert(stops_run(events[e0], d2, kd));
        }
        lemma_flat_list_run(
            events,
            p + 1,
            e0,
            d2,
            kd,
            d,
            Some(ListSettingV { kind: k, nesting_counter: 1 }),
        );
        lemma_collect_grouped(events, groups, e0, e, d, k, d2);
        let deep = TreeV::List { kind: kd, items: flat_items(events, p + 1, e0) };
        assert(collect_siblings(events, p + 1, d, k, 1) == (
            e,
            seq![deep] + grouped_items(events, groups),
        ));
    } else {
        lemma_collect_grouped(events, groups, p + 1, e, d, k, d2);
    }
    // The whole run: the leading non-item nodes belong to the first item.
    match events[p] {
        EventV::ListElemStart { ident, kind, check, content } => {
            assert(event_wf(events[p]));
            let first = first_child(events[p]);
            lemma_assemble_scopeless_not_item(content, 0, 0);
            assert(!(first is ListItem));
            let deep = TreeV::List { kind: kd, items: flat_items(events, p + 1, e0) };
            let gathered = if p + 1 < e0 {
                seq![deep] + grouped_items(events, groups)
            } else {
                grouped_items(events, groups)
            };
            let items = seq![first] + gathered;
            crate::model::lemma_split_index(items);
            let expected_si: int = if p + 1 < e0 {
                2
            } else {
                1
            };
            assert forall|j: int| expected_si <= j < items.len() implies items[j]
                is ListItem by {
                assert(items[j] == grouped_items(events, groups)[j - expected_si]);
            }
            if p + 1 < e0 {
                assert(items[1] == deep);
                assert(!(items[1] is ListItem));
            }
            let si = crate::model::split_index(items);
            if si < expected_si {
                assert(items[si] is ListItem);
            }
            if si > expected_si {
                assert(!(items[expected_si] is ListItem) || expected_si >= items.len());
            }
            assert(si == expected_si || (si == items.len() && items.len() == expected_si));
            if p + 1 < e0 {
                assert(items.take(si) =~= seq![first, deep]);
                assert(items.take(si) =~= seq![first] + seq![deep]);
            } else {
                assert(items.take(si) =~= seq![first]);
            }
            assert(items.skip(si) =~= grouped_items(events, groups));
            let own = seq![first_child(events[p])];
            let children = if p + 1 < e0 {
                own + seq![deep]
            } else {
                own
            };
            assert(items.take(si) =~= children);
            assert(seq![TreeV::ListItem { check, items: items.take(si) }] + items.skip(si)
                =~= seq![
                TreeV::ListItem { check: item_check(events[p]), items: children },
            ] + grouped_items(events, groups));
        },
        _ => {
            assert(false);
        },
    }
}

/// A stream of no events assembles to a root with no children.
pub proof fn lemma_empty_stream()
    ensures
        assemble_root(Seq::<EventV>::empty(), 0) == Seq::<TreeV>::empty(),
        root_ok(Seq::<EventV>::empty(), 0),
        events_wf(Seq::<EventV>::empty()),
{
}

/// A stream of one blank event assembles to a root with one blank child.
pub proof fn lemma_single_blank()
    ensures
        assemble_root(seq![EventV::Empty], 0) == seq![TreeV::Empty],
        root_ok(seq![EventV::Empty], 0),
        events_wf(seq![EventV::Empty]),
{
    let ev = seq![EventV::Empty];
    assert(ev[0] == EventV::Empty);
    assert(assemble_at(ev, 0, 0, None) == (1int, Some(TreeV::Empty)));
    assert(root_ok(ev, 1));
    assert(assemble_root(ev, 1) == Seq::<TreeV>::empty());
    assert(assemble_root(ev, 0) =~= seq![TreeV::Empty]);
    assert(event_wf(EventV::Empty));
    assert(events_wf(ev.drop_first()));
    assert(events_wf(ev));
}

} // verus!


//! The resolved span tree, the document tree, and the functions that build
//! them: the inline span resolver and the block tree assembler.
use vstd::prelude::*;

verus! {

use crate::{Code, ListKind, Turbo, TurboInlineRaw, TurboTextMod};
use crate::model::{
    assemble_at, assemble_root, collect_siblings, events_size, events_wf, inlines_view,
    event_wf, lemma_assemble_range, lemma_events_size_elem, lemma_events_wf_all,
    lemma_events_wf_elem, lemma_resolve_len,
    lemma_resolve_suffix, lemma_split_index,
    lemma_texts_view, lemma_texts_view_push, lemma_trees_view, lemma_trees_view_push,
    lemma_turbos_view, opt_tree_view, para_tail, resolve_s, resolve_spans, root_ok, setting_view,
    split_index, text_view, texts_view, tree_view, trees_view, turbo_view, turbos_view, InlineV,
    ListSettingV, TextV, TreeV,
};

/// A resolved inline span: a flat container, a formatting span with a kind,
/// a link leaf, a plain text leaf, or an explicit line break.
#[derive(Debug, PartialEq)]
pub enum TurboText {
    TextContainer(Vec<TurboText>),
    Mod { kind: crate::TurboTextMod, text: Vec<TurboText> },
    Link { alias: Option<String>, address: String },
    Plain(String),
    NewLine,
}

/// A node of the assembled document tree.
#[derive(Debug, PartialEq)]
pub enum TurboTree {
    Root { content: Vec<TurboTree> },
    Text(TurboText),
    Heading { size: usize, text: TurboText },
    List { kind: ListKind, items: Vec<TurboTree> },
    ListItem { check: Option<bool>, items: Vec<TurboTree> },
    Code(Code),
    Horizontal,
    Empty,
    Include(String),
}

/// The recursion context of an active list scope: the list kind and the
/// counter that bounds how many same-indent repeats a scope folds in before
/// handing control back to its caller.
#[derive(Debug, Copy, Clone)]
pub struct ListSetting {
    pub kind: ListKind,
    pub nesting_counter: usize,
}

/// The set of modifier kinds currently open around the container being
/// resolved. It is scoped: a resolution call finds its own kind inserted for
/// its extent and leaves the set as it found it; nothing is shared across
/// calls.
pub struct ModSet {
    pub bold: bool,
    pub cursive: bool,
    pub strike: bool,
    pub underline: bool,
    pub code: bool,
    pub sup: bool,
    pub sub: bool,
}

impl ModSet {
    pub open spec fn has(self, m: TurboTextMod) -> bool {
        match m {
            TurboTextMod::Bold => self.bold,
            TurboTextMod::Cursive => self.cursive,
            TurboTextMod::Strike => self.strike,
            TurboTextMod::Underline => self.underline,
            TurboTextMod::Code => self.code,
            TurboTextMod::Sup => self.sup,
            TurboTextMod::Sub => self.sub,
        }
    }

    pub open spec fn view(self) -> Set<TurboTextMod> {
        Set::new(|m: TurboTextMod| self.has(m))
    }

    /// The empty set: no modifier kind is open.
    pub fn new() -> (r: ModSet)
        ensures
            r.view() == Set::<TurboTextMod>::empty(),
    {
        let r = ModSet {
            bold: false,
            cursive: false,
            strike: false,
            underline: false,
            code: false,
            sup: false,
            sub: false,
        };
        proof {
            assert(r.view() =~= Set::<TurboTextMod>::empty());
        }
        r
    }

    pub fn contains(&self, m: TurboTextMod) -> (r: bool)
        ensures
            r == self.view().contains(m),
    {
        match m {
            TurboTextMod::Bold => self.bold,
            TurboTextMod::Cursive => self.cursive,
            TurboTextMod::Strike => self.strike,
            TurboTextMod::Underline => self.underline,
            TurboTextMod::Code => self.code,
            TurboTextMod::Sup => self.sup,
            TurboTextMod::Sub => self.sub,
        }
    }

    pub fn insert(&mut self, m: TurboTextMod)
        ensures
            final(self).view() == old(self).view().insert(m),
    {
        match m {
            TurboTextMod::Bold => self.bold = true,
            TurboTextMod::Cursive => self.cursive = true,
            TurboTextMod::Strike => self.strike = true,
            TurboTextMod::Underline => self.underline = true,
            TurboTextMod::Sup => self.sup = true,
            TurboTextMod::Sub => self.sub = true,
            TurboTextMod::Code => self.code = true,
        }
        proof {
            assert(self.view() =~= old(self).view().insert(m));
        }
    }

    pub fn remove(&mut self, m: TurboTextMod)
        ensures
            final(self).view() == old(self).view().remove(m),
    {
        match m {
            TurboTextMod::Bold => self.bold = false,
            TurboTextMod::Cursive => self.cursive = false,
            TurboTextMod::Strike => self.strike = false,
            TurboTextMod::Underline => self.underline = false,
            TurboTextMod::Sup => self.sup = false,
            TurboTextMod::Sub => self.sub = false,
            TurboTextMod::Code => self.code = false,
        }
        proof {
            assert(self.view() =~= old(self).view().remove(m));
        }
    }
}

/// Resolves inline tokens from `current` onwards into a run of sibling
/// spans, stopping when a marker of an enclosing kind hands control back or
/// when input ends. Returns the index of the first unconsumed token and the
/// spans; the open set is scoped to the call and left as it was found.
pub fn turbo_text_recursive(
    text: &Vec<TurboInlineRaw>,
    current: usize,
    stats: &mut ModSet,
) -> (r: (usize, Vec<TurboText>))
    requires
        current <= text@.len(),
    ensures
        ({
            let (rem, sp) = resolve_s(
                inlines_view(text@).skip(current as int),
                old(stats).view(),
            );
            &&& r.0 as int == text@.len() - rem.len()
            &&& current <= r.0 <= text@.len()
            &&& final(stats).view() == old(stats).view()
            &&& texts_view(r.1@) == sp
        }),
    decreases text@.len() - current,
{
    let ghost t_all = inlines_view(text@);
    let ghost o_start = stats.view();
    let mut spans: Vec<TurboText> = Vec::new();
    let mut i: usize = current;
    while i < text.len()
        invariant
            current <= i <= text@.len(),
            t_all == inlines_view(text@),
            o_start == old(stats).view(),
            stats.view() == o_start,
            ({
                let (rem0, sp0) = resolve_s(t_all.skip(current as int), o_start);
                let (remf, spf) = resolve_s(t_all.skip(i as int), o_start);
                &&& rem0 == remf
                &&& sp0 == texts_view(spans@) + spf
            }),
        decreases text@.len() - i,
    {
        let ghost suffix = t_all.skip(i as int);
        proof {
            assert(suffix.len() == t_all.len() - i);
            assert(suffix[0] == t_all[i as int]);
            assert(suffix.drop_first() =~= t_all.skip(i as int + 1));
        }
        match &text[i] {
            TurboInlineRaw::Text(p) => {
                let span = TurboText::Plain(p.clone());
                proof {
                    lemma_texts_view_push(spans@, span);
                    let (rem1, sp1) = resolve_s(t_all.skip(i as int + 1), o_start);
                    assert(texts_view(spans@) + (seq![text_view(span)] + sp1) =~= texts_view(
                        spans@.push(span),
                    ) + sp1);
                }
                spans.push(span);
                i = i + 1;
            },
            TurboInlineRaw::NewLine => {
                let span = TurboText::NewLine;
                proof {
                    lemma_texts_view_push(spans@, span);
                    let (rem1, sp1) = resolve_s(t_all.skip(i as int + 1), o_start);
                    assert(texts_view(spans@) + (seq![text_view(span)] + sp1) =~= texts_view(
                        spans@.push(span),
                    ) + sp1);
                }
                spans.push(span);
                i = i + 1;
            },
            TurboInlineRaw::Link { alias, address } => {
                let span = TurboText::Link {
                    alias: match alias {
                        Some(a) => Some(a.clone()),
                        None => None,
                    },
                    address: address.clone(),
                };
                proof {
                    lemma_texts_view_push(spans@, span);
                    let (rem1, sp1) = resolve_s(t_all.skip(i as int + 1), o_start);
                    assert(texts_view(spans@) + (seq![text_view(span)] + sp1) =~= texts_view(
                        spans@.push(span),
                    ) + sp1);
                }
                spans.push(span);
                i = i + 1;
            },
            TurboInlineRaw::ModFlag(m) => {
                let kind = *m;
                if !stats.contains(kind) {
                    stats.insert(kind);
                    let (next, inner) = turbo_text_recursive(text, i + 1, stats);
                    stats.remove(kind);
                    proof {
                        assert(o_start.insert(kind).remove(kind) =~= o_start);
                    }
                    let span = TurboText::Mod { kind, text: inner };
                    proof {
                        let (rem1, sp1) = resolve_s(
                            t_all.skip(i as int + 1),
                            o_start.insert(kind),
                        );
                        lemma_resolve_len(t_all.skip(i as int + 1), o_start.insert(kind));
                        lemma_resolve_suffix(t_all.skip(i as int + 1), o_start.insert(kind));
                        assert(t_all.skip(i as int + 1).skip(
                            t_all.skip(i as int + 1).len() - rem1.len(),
                        ) =~= t_all.skip(next as int));
                        assert(rem1 == t_all.skip(next as int));
                        assert(rem1.len() < suffix.len());
                        lemma_texts_view_push(spans@, span);
                        assert(text_view(span) == TextV::Mod {
                            kind,
                            text: texts_view(inner@),
                        });
                    }
                    let own_closer: bool = if next < text.len() {
                        match &text[next] {
                            TurboInlineRaw::ModFlag(m2) => *m2 == kind,
                            _ => false,
                        }
                    } else {
                        false
                    };
                    if own_closer {
                        proof {
                            let (rem1, sp1) = resolve_s(
                                t_all.skip(i as int + 1),
                                o_start.insert(kind),
                            );
                            assert(rem1[0] == t_all[next as int]);
                            assert(rem1[0] == InlineV::ModFlag(kind));
                            assert(rem1.drop_first() =~= t_all.skip(next as int + 1));
                            let (rem2, sp2) = resolve_s(t_all.skip(next as int + 1), o_start);
                            assert(texts_view(spans@) + (seq![text_view(span)] + sp2)
                                =~= texts_view(spans@.push(span)) + sp2);
                        }
                        spans.push(span);
                        i = next + 1;
                    } else {
                        proof {
                            let (rem1, sp1) = resolve_s(
                                t_all.skip(i as int + 1),
                                o_start.insert(kind),
                            );
                            if rem1.len() > 0 {
                                assert(rem1[0] == t_all[next as int]);
                                assert(!(rem1[0] == InlineV::ModFlag(kind)));
                            }
                            lemma_texts_view_push(spans@, span);
                            assert(texts_view(spans@) + seq![text_view(span)] =~= texts_view(
                                spans@.push(span),
                            ));
                        }
                        spans.push(span);
                        return (next, spans);
                    }
                } else {
                    proof {
                        assert(suffix[0] == InlineV::ModFlag(kind));
                        assert(o_start.contains(kind));
                        assert(resolve_s(suffix, o_start) == (suffix, Seq::<TextV>::empty()));
                        assert(texts_view(spans@) + Seq::<TextV>::empty() =~= texts_view(
                            spans@,
                        ));
                        assert(suffix.len() == text@.len() - i);
                    }
                    return (i, spans);
                }
            },
        }
    }
    proof {
        assert(t_all.skip(i as int) =~= Seq::<InlineV>::empty());
        let (rem0, sp0) = resolve_s(t_all.skip(current as int), o_start);
        assert(texts_view(spans@) + Seq::<TextV>::empty() =~= texts_view(spans@));
    }
    (i, spans)
}

impl TurboText {
    /// The children of a container-like span, open to mutation: the span
    /// afterwards holds, under its own kind, whatever the caller leaves in
    /// the returned vector.
    pub fn get_vec_mut(&mut self) -> (r: &mut Vec<TurboText>)
        requires
            *old(self) is TextContainer || *old(self) is Mod,
        ensures
            texts_view(r@) == (match text_view(*old(self)) {
                TextV::Container(c) => c,
                TextV::Mod { kind, text } => text,
                _ => texts_view(r@),
            }),
            text_view(*final(self)) == (match text_view(*old(self)) {
                TextV::Container(_) => TextV::Container(texts_view(final(r)@)),
                TextV::Mod { kind, text } => (TextV::Mod { kind, text: texts_view(final(r)@) }),
                _ => text_view(*final(self)),
            }),
    {
        match self {
            TurboText::TextContainer(vec) => vec,
            TurboText::Mod { text, .. } => text,
            _ => unreached(),
        }
    }
}

impl TurboTree {
    /// True of a list item node.
    fn is_list_item(&self) -> (r: bool)
        ensures
            r == (tree_view(*self) is ListItem),
    {
        match self {
            TurboTree::ListItem { .. } => true,
            _ => false,
        }
    }
}

/// One step of the block tree assembler: assembles the event at `current`
/// into a node, or hands control back to the enclosing scope (`None`).
/// The cursor and node returned are exactly those of `assemble_at` on the
/// event stream's view.
fn generate_recursive(
    turbo: &Vec<Turbo>,
    current: usize,
    current_ident: usize,
    list_setting: Option<ListSetting>,
) -> (r: (usize, Option<TurboTree>))
    requires
        current < turbo@.len(),
        turbo@.len() < usize::MAX,
        events_wf(turbos_view(turbo@)),
        list_setting is Some ==> list_setting->0.nesting_counter <= current + 1,
    ensures
        ({
            let (nxt, item) = assemble_at(
                turbos_view(turbo@),
                current as int,
                current_ident as int,
                setting_view(list_setting),
            );
            &&& r.0 as int == nxt
            &&& opt_tree_view(r.1) == item
        }),
    decreases events_size(turbos_view(turbo@)), turbo@.len() - current,
{
    let ghost ev = turbos_view(turbo@);
    let ghost lsv = setting_view(list_setting);
    proof {
        lemma_turbos_view(turbo@);
        lemma_events_wf_elem(ev, current as int);
    }
    match &turbo[current] {
        Turbo::Header { ident, size, text } => {
            if list_setting.is_some() && *ident <= current_ident {
                return (current + 1, None);
            }
            let t = turbo_text(text);
            (current + 1, Some(TurboTree::Heading { size: *size, text: t }))
        },
        Turbo::Horizontal => (current + 1, Some(TurboTree::Horizontal)),
        Turbo::Empty => (current + 1, Some(TurboTree::Empty)),
        Turbo::Line { ident, text } => {
            if list_setting.is_some() {
                if *ident <= current_ident {
                    return (current + 1, None);
                }
            } else {
                if *ident != current_ident {
                    return (current + 1, None);
                }
            }
            let line_ident = *ident;
            let mut spans = {
                let mut stats = ModSet::new();
                let (_, first_spans) = turbo_text_recursive(text, 0, &mut stats);
                first_spans
            };
            proof {
                assert(inlines_view(text@).skip(0) =~= inlines_view(text@));
            }
            let mut idx = current + 1;
            loop
                invariant
                    current + 1 <= idx <= turbo@.len(),
                    ev == turbos_view(turbo@),
                    turbo@.len() < usize::MAX,
                    ({
                        let (e0, sp0) = para_tail(ev, current as int + 1, line_ident as int);
                        let (ef, spf) = para_tail(ev, idx as int, line_ident as int);
                        &&& e0 == ef
                        &&& resolve_spans(inlines_view(text@)) + sp0 == texts_view(spans@) + spf
                    }),
                ensures
                    current + 1 <= idx <= turbo@.len(),
                    ({
                        let (e0, sp0) = para_tail(ev, current as int + 1, line_ident as int);
                        &&& e0 == idx as int
                        &&& resolve_spans(inlines_view(text@)) + sp0 == texts_view(spans@)
                    }),
                decreases turbo@.len() - idx,
            {
                proof {
                    lemma_turbos_view(turbo@);
                }
                if idx >= turbo.len() {
                    proof {
                        assert(texts_view(spans@) + Seq::<TextV>::empty() =~= texts_view(
                            spans@,
                        ));
                    }
                    break;
                }
                match &turbo[idx] {
                    Turbo::Line { ident: id2, text: t2 } => {
                        if *id2 == line_ident {
                            let ghost spans0 = spans@;
                            let sep = TurboText::Plain(" ".to_owned());
                            spans.push(sep);
                            let mut stats2 = ModSet::new();
                            let (_, mut more) = turbo_text_recursive(t2, 0, &mut stats2);
                            let ghost more0 = more@;
                            spans.append(&mut more);
                            proof {
                                assert(inlines_view(t2@).skip(0) =~= inlines_view(t2@));
                                lemma_texts_view(spans0);
                                lemma_texts_view(more0);
                                lemma_texts_view(spans@);
                                let (e1, sp1) = para_tail(ev, idx as int + 1, line_ident as int);
                                assert(texts_view(spans@) =~= texts_view(spans0) + seq![
                                    TextV::Plain(" "@),
                                ] + texts_view(more0));
                                assert(texts_view(spans0) + (seq![TextV::Plain(" "@)]
                                    + resolve_spans(inlines_view(t2@)) + sp1) =~= texts_view(
                                    spans@,
                                ) + sp1);
                            }
                            idx = idx + 1;
                        } else {
                            proof {
                                let (ef, spf) = para_tail(ev, idx as int, line_ident as int);
                                assert(spf =~= Seq::<TextV>::empty());
                                assert(texts_view(spans@) + Seq::<TextV>::empty() =~= texts_view(
                                    spans@,
                                ));
                            }
                            break;
                        }
                    },
                    _ => {
                        proof {
                            let (ef, spf) = para_tail(ev, idx as int, line_ident as int);
                            assert(spf =~= Seq::<TextV>::empty());
                            assert(texts_view(spans@) + Seq::<TextV>::empty() =~= texts_view(
                                spans@,
                            ));
                        }
                        break;
                    },
                }
            }
            (idx, Some(TurboTree::Text(TurboText::TextContainer(spans))))
        },
        Turbo::ListElemStart { ident, kind, check, content } => {
            let item_ident = *ident;
            let item_kind = *kind;
            let item_check = *check;
            if let Some(setting) = &list_setting {
                if item_ident == current_ident && (setting.nesting_counter > 1 || setting.kind
                    != item_kind) {
                    return (current, None);
                }
                if item_ident < current_ident {
                    return (current, None);
                }
            }
            proof {
                lemma_events_size_elem(ev, current as int);
                lemma_turbos_view(content@);
            }
            let mut items: Vec<TurboTree> = Vec::new();
            let (_, item0) = generate_recursive(content, 0, 0, None);
            let first = match item0 {
                Some(t) => t,
                None => unreached(),
            };
            proof {
                lemma_trees_view_push(items@, first);
            }
            items.push(first);
            let nc: usize = if let Some(setting) = &list_setting {
                if item_ident == current_ident && setting.kind == item_kind {
                    setting.nesting_counter
                } else {
                    0
                }
            } else {
                0
            };
            let ghost first_v = tree_view(first);
            let mut idx = current + 1;
            loop
                invariant
                    current + 1 <= idx <= turbo@.len(),
                    ev == turbos_view(turbo@),
                    turbo@.len() < usize::MAX,
                    events_wf(ev),
                    nc <= current + 1,
                    items@.len() >= 1,
                    ({
                        let (e0, it0) = collect_siblings(
                            ev,
                            current as int + 1,
                            item_ident as int,
                            item_kind,
                            nc as int + 1,
                        );
                        let (ef, itf) = collect_siblings(
                            ev,
                            idx as int,
                            item_ident as int,
                            item_kind,
                            nc as int + 1,
                        );
                        &&& e0 == ef
                        &&& seq![first_v] + it0 == trees_view(items@) + itf
                    }),
                ensures
                    current + 1 <= idx <= turbo@.len(),
                    items@.len() >= 1,
                    ({
                        let (e0, it0) = collect_siblings(
                            ev,
                            current as int + 1,
                            item_ident as int,
                            item_kind,
                            nc as int + 1,
                        );
                        &&& e0 == idx as int
                        &&& seq![first_v] + it0 == trees_view(items@)
                    }),
                decreases turbo@.len() - idx,
            {
                proof {
                    lemma_turbos_view(turbo@);
                }
                if idx >= turbo.len() {
                    proof {
                        assert(trees_view(items@) + Seq::<TreeV>::empty() =~= trees_view(
                            items@,
                        ));
                    }
                    break;
                }
                let (next_idx, next) = generate_recursive(
                    turbo,
                    idx,
                    item_ident,
                    Some(ListSetting { kind: item_kind, nesting_counter: nc + 1 }),
                );
                proof {
                    lemma_assemble_range(
                        ev,
                        idx as int,
                        item_ident as int,
                        Some(ListSettingV { kind: item_kind, nesting_counter: nc as int + 1 }),
                    );
                }
                match next {
                    Some(n) => {
                        proof {
                            lemma_trees_view_push(items@, n);
                            let (e1, it1) = collect_siblings(
                                ev,
                                next_idx as int,
                                item_ident as int,
                                item_kind,
                                nc as int + 1,
                            );
                            assert(trees_view(items@) + (seq![tree_view(n)] + it1) =~= trees_view(
                                items@.push(n),
                            ) + it1);
                        }
                        items.push(n);
                        idx = next_idx;
                    },
                    None => {
                        proof {
                            assert(trees_view(items@) + Seq::<TreeV>::empty() =~= trees_view(
                                items@,
                            ));
                        }
                        break;
                    },
                }
            }
            if list_setting.is_some() && item_ident == current_ident {
                return (idx, Some(TurboTree::ListItem { check: item_check, items }));
            }
            let mut si: usize = 0;
            proof {
                lemma_trees_view(items@);
                lemma_split_index(trees_view(items@));
            }
            while si < items.len()
                invariant
                    0 <= si <= items@.len(),
                    forall|j: int| 0 <= j < si ==> !(trees_view(items@)[j] is ListItem),
                    forall|j: int|
                        0 <= j < items@.len() ==> trees_view(items@)[j] == tree_view(items@[j]),
                    trees_view(items@).len() == items@.len(),
                ensures
                    0 <= si <= items@.len(),
                    forall|j: int| 0 <= j < si ==> !(trees_view(items@)[j] is ListItem),
                    si < items@.len() ==> trees_view(items@)[si as int] is ListItem,
                decreases items@.len() - si,
            {
                if items[si].is_list_item() {
                    break;
                }
                si = si + 1;
            }
            proof {
                let siv = split_index(trees_view(items@));
                if siv < si {
                    assert(trees_view(items@)[siv] is ListItem);
                }
                if si < siv {
                    assert(!(trees_view(items@)[si as int] is ListItem));
                }
                assert(si as int == siv);
            }
            let ghost all_items = items@;
            let rest = items.split_off(si);
            let list_item = TurboTree::ListItem { check: item_check, items };
            let mut final_items: Vec<TurboTree> = Vec::new();
            final_items.push(list_item);
            let mut rest = rest;
            final_items.append(&mut rest);
            proof {
                let siv = split_index(trees_view(all_items));
                lemma_trees_view(all_items);
                lemma_trees_view(all_items.subrange(0, siv));
                lemma_trees_view(all_items.subrange(siv, all_items.len() as int));
                lemma_trees_view(final_items@);
                assert(trees_view(all_items.subrange(0, siv)) =~= trees_view(all_items).take(siv));
                assert(trees_view(all_items.subrange(siv, all_items.len() as int)) =~= trees_view(
                    all_items,
                ).skip(siv));
                assert(trees_view(final_items@) =~= seq![
                    TreeV::ListItem {
                        check: item_check,
                        items: trees_view(all_items).take(siv),
                    },
                ] + trees_view(all_items).skip(siv));
            }
            (idx, Some(TurboTree::List { kind: item_kind, items: final_items }))
        },
        Turbo::Code { ident, code } => {
            if list_setting.is_some() {
                if let Some(id) = ident {
                    if *id <= current_ident {
                        return (current, None);
                    }
                }
            }
            (current + 1, Some(TurboTree::Code(code.clone())))
        },
        Turbo::Include { ident, path } => {
            if list_setting.is_some() && *ident <= current_ident {
                return (current, None);
            }
            (current + 1, Some(TurboTree::Include(path.clone())))
        },
        Turbo::Root(_) => unreached(),
    }
}

/// Decides well-formedness of one event, as `event_wf` states it.
fn check_event(t: &Turbo) -> (r: bool)
    ensures
        r == event_wf(turbo_view(*t)),
    decreases *t,
{
    match t {
        Turbo::Root(_) => false,
        Turbo::ListElemStart { content, .. } => {
            proof {
                lemma_turbos_view(content@);
            }
            if content.len() == 0 {
                return false;
            }
            if !(content.len() < usize::MAX) {
                return false;
            }
            if !check_events(content) {
                return false;
            }
            let ghost cv = turbos_view(content@);
            proof {
                lemma_events_wf_elem(cv, 0);
                assert(cv[0] == turbo_view(content@[0]));
            }
            match &content[0] {
                Turbo::Line { ident, .. } => {
                    if *ident == 0 {
                        proof {
                            assert(assemble_at(cv, 0, 0, None).1 is Some);
                        }
                        true
                    } else {
                        proof {
                            assert(assemble_at(cv, 0, 0, None).1 is None);
                        }
                        false
                    }
                },
                Turbo::Root(_) => unreached(),
                _ => {
                    proof {
                        assert(assemble_at(cv, 0, 0, None).1 is Some);
                    }
                    true
                },
            }
        },
        _ => true,
    }
}

/// Decides well-formedness of an event sequence, as `events_wf` states it.
fn check_events(v: &Vec<Turbo>) -> (r: bool)
    ensures
        r == events_wf(turbos_view(v@)),
    decreases v@,
{
    let ghost ev = turbos_view(v@);
    proof {
        lemma_turbos_view(v@);
    }
    let mut i: usize = 0;
    while i < v.len()
        invariant
            0 <= i <= v@.len(),
            ev == turbos_view(v@),
            ev.len() == v@.len(),
            forall|j: int| 0 <= j < v@.len() ==> ev[j] == turbo_view(v@[j]),
            forall|j: int| 0 <= j < i ==> event_wf(ev[j]),
        decreases v@.len() - i,
    {
        if !check_event(&v[i]) {
            proof {
                if events_wf(ev) {
                    lemma_events_wf_elem(ev, i as int);
                }
            }
            return false;
        }
        i = i + 1;
    }
    proof {
        lemma_events_wf_all(ev);
    }
    true
}

/// Decides whether a stream meets the assembler's whole input contract: every
/// event well formed, every top-level step consuming, and the length within
/// the machine bound. It decides the consumption part by running the
/// assembler itself and discarding the nodes.
pub fn stream_ok(events: &Vec<Turbo>) -> (r: bool)
    ensures
        r == (events_wf(turbos_view(events@)) && root_ok(turbos_view(events@), 0)
            && events@.len() < usize::MAX),
{
    if !(events.len() < usize::MAX) {
        return false;
    }
    if !check_events(events) {
        return false;
    }
    let ghost ev = turbos_view(events@);
    proof {
        lemma_turbos_view(events@);
    }
    let mut idx: usize = 0;
    while idx < events.len()
        invariant
            0 <= idx <= events@.len(),
            ev == turbos_view(events@),
            ev.len() == events@.len(),
            events_wf(ev),
            events@.len() < usize::MAX,
            root_ok(ev, 0) == root_ok(ev, idx as int),
        decreases events@.len() - idx,
    {
        let (next_idx, next) = generate_recursive(events, idx, 0, None);
        proof {
            lemma_assemble_range(ev, idx as int, 0, None);
        }
        match next {
            Some(_) => {
                idx = next_idx;
            },
            None => {
                proof {
                    assert(!root_ok(ev, idx as int));
                }
                return false;
            },
        }
    }
    true
}

impl TurboTree {
    /// Assembles a parsed document's event stream into the document tree:
    /// one assembler step per root child, over the whole stream.
    pub fn generate(parse: Turbo) -> (r: Self)
        requires
            parse is Root,
            events_wf(turbos_view(parse->Root_0@)),
            root_ok(turbos_view(parse->Root_0@), 0),
            parse->Root_0@.len() < usize::MAX,
        ensures
            tree_view(r) == (TreeV::Root {
                content: assemble_root(turbos_view(parse->Root_0@), 0),
            }),
    {
        let mut content: Vec<TurboTree> = Vec::new();
        let root = parse.root();
        let ghost ev = turbos_view(root@);
        let mut idx: usize = 0;
        proof {
            lemma_turbos_view(root@);
        }
        while idx < root.len()
            invariant
                0 <= idx <= root@.len(),
                ev == turbos_view(root@),
                root@ == parse->Root_0@,
                events_wf(ev),
                root@.len() < usize::MAX,
                root_ok(ev, idx as int),
                assemble_root(ev, 0) == trees_view(content@) + assemble_root(ev, idx as int),
            decreases root@.len() - idx,
        {
            proof {
                lemma_turbos_view(root@);
            }
            let (next_idx, next) = generate_recursive(root, idx, 0, None);
            proof {
                lemma_assemble_range(ev, idx as int, 0, None);
            }
            let node = match next {
                Some(n) => n,
                None => unreached(),
            };
            proof {
                lemma_trees_view_push(content@, node);
                assert(trees_view(content@) + (seq![tree_view(node)] + assemble_root(
                    ev,
                    next_idx as int,
                )) =~= trees_view(content@.push(node)) + assemble_root(ev, next_idx as int));
            }
            content.push(node);
            idx = next_idx;
        }
        proof {
            assert(assemble_root(ev, idx as int) =~= Seq::<TreeV>::empty());
            assert(trees_view(content@) + Seq::<TreeV>::empty() =~= trees_view(content@));
        }
        TurboTree::Root { content }
    }

    /// The children of a root, list or list item node.
    pub fn get_vec(&self) -> (r: &Vec<TurboTree>)
        requires
            *self is Root || *self is List || *self is ListItem,
        ensures
            match tree_view(*self) {
                TreeV::Root { content } => trees_view(r@) == content,
                TreeV::List { kind, items } => trees_view(r@) == items,
                TreeV::ListItem { check, items } => trees_view(r@) == items,
                _ => false,
            },
    {
        match self {
            TurboTree::Root { content, .. } => content,
            TurboTree::List { items, .. } => items,
            TurboTree::ListItem { items, .. } => items,
            _ => unreached(),
        }
    }
}

/// Extends a container-like span with the resolution of further tokens,
/// starting afresh with no modifier kind open.
pub fn turbo_text_extend(to_extend: &mut TurboText, raw: &Vec<TurboInlineRaw>)
    requires
        *old(to_extend) is TextContainer || *old(to_extend) is Mod,
    ensures
        text_view(*final(to_extend)) == crate::model::append_spans(
            text_view(*old(to_extend)),
            resolve_spans(inlines_view(raw@)),
        ),
{
    let mut stats = ModSet::new();
    let (_, mut more) = turbo_text_recursive(raw, 0, &mut stats);
    proof {
        assert(inlines_view(raw@).skip(0) =~= inlines_view(raw@));
    }
    let ghost more0 = more@;
    let mut taken = TurboText::NewLine;
    core::mem::swap(to_extend, &mut taken);
    let result = match taken {
        TurboText::TextContainer(vec) => {
            let mut vec = vec;
            let ghost vec0 = vec@;
            vec.append(&mut more);
            proof {
                lemma_texts_view(vec0);
                lemma_texts_view(more0);
                lemma_texts_view(vec@);
                assert(texts_view(vec@) =~= texts_view(vec0) + texts_view(more0));
            }
            TurboText::TextContainer(vec)
        },
        TurboText::Mod { kind, text } => {
            let mut text = text;
            let ghost text0 = text@;
            text.append(&mut more);
            proof {
                lemma_texts_view(text0);
                lemma_texts_view(more0);
                lemma_texts_view(text@);
                assert(texts_view(text@) =~= texts_view(text0) + texts_view(more0));
            }
            TurboText::Mod { kind, text }
        },
        _ => unreached(),
    };
    let mut result = result;
    core::mem::swap(to_extend, &mut result);
}

/// Resolves one inline token list into a span tree rooted at a flat
/// container, starting with no modifier kind open.
pub fn turbo_text(raw: &Vec<TurboInlineRaw>) -> (r: TurboText)
    ensures
        text_view(r) == TextV::Container(
            resolve_s(inlines_view(raw@), Set::empty()).1,
        ),
{
    let mut stats = ModSet::new();
    let (_, spans) = turbo_text_recursive(raw, 0, &mut stats);
    proof {
        assert(inlines_view(raw@).skip(0) =~= inlines_view(raw@));
    }
    TurboText::TextContainer(spans)
}

} // verus!

//! The original smoke test of the inline resolver, fed through the lexical
//! grammar, plus fence scenarios that go through the same grammar.
use chumsky::prelude::{any, choice, filter, just, one_of, take_until, text, Parser, Simple};
use turbo_md::ast::{turbo_text, TurboText, TurboTree};
use turbo_md::{Code, Lang, ListKind, Turbo, TurboInlineRaw, TurboTextMod};

fn parser() -> impl Parser<char, Turbo, Error = Simple<char>> {
    let plain_text = filter(|c: &char| {
        *c != '#'
            && *c != '*'
            && *c != '_'
            && *c != '~'
            && *c != '`'
            && *c != '['
            && *c != '\n'
            && *c != '\\'
    })
    .repeated()
    .at_least(1)
    .collect::<String>()
    .map(TurboInlineRaw::Text);

    let extended_backslash_text = filter(|c: &char| *c != '\n' && *c != '{' && *c != '}')
        .repeated()
        .collect::<String>()
        .map(TurboInlineRaw::Text);

    let number = text::digits(10).map(|n: String| n.parse::<usize>().unwrap());

    let text_modifier = choice((
        just('*').to(TurboTextMod::Bold),
        just('_').to(TurboTextMod::Cursive),
        just('~').to(TurboTextMod::Strike),
        just('`').to(TurboTextMod::Code),
    ))
    .map(TurboInlineRaw::ModFlag);

    let backslash_extended = just('\\')
        .ignore_then(just('{'))
        .ignore_then(extended_backslash_text)
        .then_ignore(just('}'));

    let backslash = just('\\')
        .ignore_then(one_of("*_~`-[\\"))
        .map(|val: char| TurboInlineRaw::Text(val.to_string()));

    let new_line = just('\\').then(just('\n')).to(TurboInlineRaw::NewLine);

    let link = filter(|c: &char| *c != '\n' && *c != ']')
        .repeated()
        .collect::<String>()
        .map(|val: String| if val.is_empty() { None } else { Some(val) })
        .delimited_by(just('['), just(']'))
        .then(
            filter(|c: &char| *c != '\n' && *c != ')')
                .repeated()
                .collect::<String>()
                .delimited_by(just('('), just(')')),
        )
        .map(|(alias, address)| TurboInlineRaw::Link { alias, address });

    let inline = choice((
        backslash,
        backslash_extended,
        link,
        text_modifier,
        new_line,
        plain_text,
    ));

    let whitespace = just(' ').repeated().collect::<String>().map(|s: String| s.len());

    let text_line = inline.repeated().then_ignore(text::newline());

    let ident_text_line = whitespace
        .then(text_line.clone())
        .map(|(ident, text)| Turbo::Line { ident, text });

    let header_tag = filter(|c: &char| *c == '#')
        .repeated()
        .at_least(1)
        .collect::<String>()
        .then_ignore(just(' ').or_not())
        .map(|tag: String| tag.len());

    let header = whitespace
        .clone()
        .then(header_tag.then(text_line.clone()))
        .map(|(ident, (size, text))| Turbo::Header { ident, size, text });

    let hr = just('-')
        .repeated()
        .at_least(3)
        .ignore_then(just('\n'))
        .to(Turbo::Horizontal);

    let empty = just('\n').to(Turbo::Empty);

    let list_tag = choice((
        just('-')
            .ignore_then(just(' ').or_not())
            .ignore_then(number)
            .then_ignore(just(' ').or_not())
            .map(|n| ListKind::Unordered(Some(n))),
        just('-').then(just(' ').or_not()).to(ListKind::Unordered(None)),
    ));

    let check = choice((just('x'), just(' ')))
        .delimited_by(just('['), just(']'))
        .then_ignore(just(' ').or_not())
        .map(|x| x == 'x');

    let code_start = just(':')
        .repeated()
        .exactly(3)
        .ignore_then(just(' ').repeated())
        .ignore_then(
            filter(|c: &char| *c != '\n')
                .repeated()
                .at_least(1)
                .collect::<String>(),
        )
        .then_ignore(just('\n'));

    let code_end = just(':').repeated().exactly(3).then(just('\n').or_not());

    let code = code_start
        .clone()
        .then(take_until(code_end.clone()))
        .map(|(lang, (code, _)): (String, (Vec<char>, _))| Turbo::Code {
            ident: None,
            code: Code {
                lang: Lang::from_tag(lang.as_ref()),
                code: code.iter().collect::<String>(),
            },
        });

    let code_ident = whitespace
        .then(code_start.then(take_until(code_end)))
        .map(|(ident, (lang, (code, _))): (usize, (String, (Vec<char>, _)))| Turbo::Code {
            ident: Some(ident),
            code: Code {
                lang: Lang::from_tag(lang.as_ref()),
                code: code.iter().collect::<String>(),
            },
        });

    let list_element_start = whitespace
        .then(list_tag)
        .then(check.or_not())
        .then(choice((
            code,
            text_line.map(|text| Turbo::Line { ident: 0, text }),
        )))
        .map(|(((ident, kind), check), content)| Turbo::ListElemStart {
            ident,
            kind,
            check,
            content: vec![content],
        });

    let embed = whitespace
        .then(
            just('@')
                .ignore_then(
                    any()
                        .repeated()
                        .collect::<String>()
                        .delimited_by(just('['), just(']')),
                )
                .then_ignore(just('\n')),
        )
        .map(|(ident, path)| Turbo::Include { ident, path });

    choice((
        header,
        hr,
        empty,
        code_ident,
        embed,
        list_element_start,
        ident_text_line,
    ))
    .repeated()
    .map(Turbo::Root)
}

const INPUT: &str = "This is _a ~bad~ *super Test_ [hope](https://google.com) it _~*works*~_\n";

#[test]
fn ast_test() {
    let parse = parser().parse(INPUT).unwrap();
    if let Turbo::Root(vec) = &parse {
        if let Turbo::Line { text, .. } = &vec[0] {
            let text = turbo_text(text);
            println!("{:?}", text);
        }
    }
}

#[test]
fn fenced_code_block_verbatim() {
    let input = "::: cpp\nint *a = b _c_ ~d~ `e`;\n*more stars*\n:::\n";
    let parse = parser().parse(input).unwrap();
    let tree = TurboTree::generate(parse);
    let expected = TurboTree::Root {
        content: vec![TurboTree::Code(Code {
            lang: Lang::CPP,
            code: "int *a = b _c_ ~d~ `e`;\n*more stars*\n".to_string(),
        })],
    };
    assert_eq!(tree, expected);
}

#[test]
fn nested_list_scenario_through_grammar() {
    let input = "- item one\n    nested text\n- item two\n";
    let parse = parser().parse(input).unwrap();
    let tree = TurboTree::generate(parse);
    let para = |s: &str| {
        TurboTree::Text(TurboText::TextContainer(vec![TurboText::Plain(
            s.to_string(),
        )]))
    };
    let expected = TurboTree::Root {
        content: vec![TurboTree::List {
            kind: ListKind::Unordered(None),
            items: vec![
                TurboTree::ListItem {
                    check: None,
                    items: vec![para("item one"), para("nested text")],
                },
                TurboTree::ListItem {
                    check: None,
                    items: vec![para("item two")],
                },
            ],
        }],
    };
    assert_eq!(tree, expected);
}

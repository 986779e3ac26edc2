//! Core of a lightweight-markup document processor: an inline span resolver
//! that nests text-formatting runs, and a block tree assembler that turns a
//! flat, indentation-annotated stream of block events into a document tree.
//!
//! The character-level grammar that produces the event stream and the
//! renderers that consume the finished tree are external collaborators; this
//! crate holds the data model and the assembly logic.
use vstd::prelude::*;

pub mod ast;
pub mod html;
pub mod laws;
pub mod model;

verus! {

use crate::model::{turbo_view, turbos_view};
use vstd::string::StringSliceAdditionalSpecFns;

/// An inline text-formatting marker kind. A marker token of one kind toggles
/// a formatting span open or closed.
#[derive(Debug, Copy, Clone, PartialEq, Eq, Structural, Hash)]
pub enum TurboTextMod {
    Bold,
    Cursive,
    Strike,
    Underline,
    Code,
    Sup,
    Sub,
}

/// The subtype of a list. Kind identity includes the unordered style index,
/// so a style change at equal indentation starts a new list.
#[derive(Debug, Copy, Clone, PartialEq, Eq, Structural)]
pub enum ListKind {
    Numbered,
    AlphabetUpper,
    AlphabetLower,
    RomanUpper,
    RomanLower,
    Unordered(Option<usize>),
}

/// The language tag of a fenced code block.
#[derive(Debug, PartialEq)]
pub enum Lang {
    Turbo,
    KaTeX,
    Rust,
    Nim,
    Python,
    C,
    CPP,
    Other(String),
}

/// A fenced code block: a language tag and the verbatim body.
#[derive(Debug, PartialEq)]
pub struct Code {
    pub lang: Lang,
    pub code: String,
}

/// One inline token as the lexical stage hands it over: a plain text run, a
/// formatting marker, a link, or an explicit line break.
#[derive(Debug, PartialEq)]
pub enum TurboInlineRaw {
    Text(String),
    ModFlag(TurboTextMod),
    Link { alias: Option<String>, address: String },
    NewLine,
}

/// One block-level event from the lexical stage. `ident` is the raw count of
/// leading spaces; text-bearing events carry their inline token list.
#[derive(Debug, PartialEq)]
pub enum Turbo {
    Root(Vec<Turbo>),
    Header { ident: usize, size: usize, text: Vec<TurboInlineRaw> },
    Line { ident: usize, text: Vec<TurboInlineRaw> },
    ListElemStart { ident: usize, kind: ListKind, check: Option<bool>, content: Vec<Turbo> },
    Code { ident: Option<usize>, code: Code },
    Include { ident: usize, path: String },
    Horizontal,
    Empty,
}

impl Turbo {
    /// The events below the root of a parsed document.
    pub fn root(&self) -> (r: &Vec<Turbo>)
        requires
            self is Root,
        ensures
            turbos_view(r@) == turbo_view(*self)->Root_0,
            r@ == self->Root_0@,
    {
        match self {
            Turbo::Root(vec) => vec,
            _ => unreached(),
        }
    }
}

impl Lang {
    /// The canonical lower-case name of the language tag.
    pub fn as_str(&self) -> (r: &str)
        ensures
            r@ == lang_str(*self),
    {
        match self {
            Lang::Turbo => "turbo",
            Lang::KaTeX => "katex",
            Lang::Rust => "rust",
            Lang::Nim => "nim",
            Lang::Python => "python",
            Lang::C => "c",
            Lang::CPP => "cpp",
            Lang::Other(s) => s.as_str(),
        }
    }
}

impl Clone for Lang {
    fn clone(&self) -> (res: Self)
        ensures
            res == *self,
    {
        match self {
            Lang::Turbo => Lang::Turbo,
            Lang::KaTeX => Lang::KaTeX,
            Lang::Rust => Lang::Rust,
            Lang::Nim => Lang::Nim,
            Lang::Python => Lang::Python,
            Lang::C => Lang::C,
            Lang::CPP => Lang::CPP,
            Lang::Other(s) => Lang::Other(s.clone()),
        }
    }
}

impl Clone for Code {
    fn clone(&self) -> (res: Self)
        ensures
            res == *self,
    {
        Code { lang: self.lang.clone(), code: self.code.clone() }
    }
}

impl Clone for TurboInlineRaw {
    fn clone(&self) -> (res: Self)
        ensures
            res == *self,
    {
        match self {
            TurboInlineRaw::Text(s) => TurboInlineRaw::Text(s.clone()),
            TurboInlineRaw::ModFlag(m) => TurboInlineRaw::ModFlag(*m),
            TurboInlineRaw::Link { alias, address } => TurboInlineRaw::Link {
                alias: match alias {
                    Some(a) => Some(a.clone()),
                    None => None,
                },
                address: address.clone(),
            },
            TurboInlineRaw::NewLine => TurboInlineRaw::NewLine,
        }
    }
}

/// A deep copy of an event; the copy has the same view as the original.
pub fn clone_turbo(t: &Turbo) -> (r: Turbo)
    ensures
        turbo_view(r) == turbo_view(*t),
    decreases *t,
{
    match t {
        Turbo::Root(v) => Turbo::Root(clone_turbos(v)),
        Turbo::Header { ident, size, text } => Turbo::Header {
            ident: *ident,
            size: *size,
            text: clone_inlines(text),
        },
        Turbo::Line { ident, text } => Turbo::Line { ident: *ident, text: clone_inlines(text) },
        Turbo::ListElemStart { ident, kind, check, content } => Turbo::ListElemStart {
            ident: *ident,
            kind: *kind,
            check: *check,
            content: clone_turbos(content),
        },
        Turbo::Code { ident, code } => Turbo::Code { ident: *ident, code: code.clone() },
        Turbo::Include { ident, path } => Turbo::Include { ident: *ident, path: path.clone() },
        Turbo::Horizontal => Turbo::Horizontal,
        Turbo::Empty => Turbo::Empty,
    }
}

/// A deep copy of an event sequence, elementwise.
pub fn clone_turbos(v: &Vec<Turbo>) -> (r: Vec<Turbo>)
    ensures
        turbos_view(r@) == turbos_view(v@),
    decreases v@,
{
    let mut r: Vec<Turbo> = Vec::new();
    let mut i: usize = 0;
    proof {
        crate::model::lemma_turbos_view(v@);
    }
    while i < v.len()
        invariant
            i <= v.len(),
            r@.len() == i,
            forall|j: int| 0 <= j < i ==> turbo_view(r@[j]) == turbo_view(v@[j]),
        decreases v.len() - i,
    {
        let t = clone_turbo(&v[i]);
        r.push(t);
        i = i + 1;
    }
    proof {
        crate::model::lemma_turbos_view(r@);
        crate::model::lemma_turbos_view(v@);
        assert(turbos_view(r@) =~= turbos_view(v@));
    }
    r
}

/// A copy of an inline token list; the copy has the same view as the original.
pub fn clone_inlines(v: &Vec<TurboInlineRaw>) -> (r: Vec<TurboInlineRaw>)
    ensures
        r@ =~= v@,
{
    let mut r: Vec<TurboInlineRaw> = Vec::new();
    let mut i: usize = 0;
    while i < v.len()
        invariant
            i <= v.len(),
            r@.len() == i,
            forall|j: int| 0 <= j < i ==> r@[j] == v@[j],
        decreases v.len() - i,
    {
        let t = v[i].clone();
        r.push(t);
        i = i + 1;
    }
    r
}

impl Clone for Turbo {
    fn clone(&self) -> (res: Self)
        ensures
            turbo_view(res) == turbo_view(*self),
    {
        clone_turbo(self)
    }
}

/// Two strings are equal exactly when their UTF-8 bytes are: the encoding
/// determines the characters.
fn str_eq(a: &str, b: &str) -> (r: bool)
    ensures
        r == (a@ == b@),
{
    proof {
        vstd::utf8::encode_utf8_decode_utf8(a@);
        vstd::utf8::encode_utf8_decode_utf8(b@);
    }
    let ab = a.as_bytes();
    let bb = b.as_bytes();
    if ab.len() != bb.len() {
        return false;
    }
    let mut i: usize = 0;
    while i < ab.len()
        invariant
            0 <= i <= ab@.len(),
            ab@.len() == bb@.len(),
            ab@ == a.spec_bytes(),
            bb@ == b.spec_bytes(),
            forall|j: int| 0 <= j < i ==> ab@[j] == bb@[j],
        decreases ab@.len() - i,
    {
        if ab[i] != bb[i] {
            proof {
                assert(a.spec_bytes()[i as int] != b.spec_bytes()[i as int]);
            }
            return false;
        }
        i = i + 1;
    }
    proof {
        assert(a.spec_bytes() =~= b.spec_bytes());
        vstd::utf8::encode_utf8_decode_utf8(a@);
        vstd::utf8::encode_utf8_decode_utf8(b@);
    }
    true
}

/// The language tag a fence's label maps to; an unknown label is kept
/// verbatim.
pub open spec fn lang_of(s: Seq<char>) -> crate::model::LangV {
    if s == "turbo"@ {
        crate::model::LangV::Turbo
    } else if s == "katex"@ {
        crate::model::LangV::KaTeX
    } else if s == "math"@ {
        crate::model::LangV::KaTeX
    } else if s == "rust"@ {
        crate::model::LangV::Rust
    } else if s == "nim"@ {
        crate::model::LangV::Nim
    } else if s == "python"@ {
        crate::model::LangV::Python
    } else if s == "c"@ {
        crate::model::LangV::C
    } else if s == "cpp"@ {
        crate::model::LangV::CPP
    } else if s == "c++"@ {
        crate::model::LangV::CPP
    } else {
        crate::model::LangV::Other(s)
    }
}

impl Lang {
    /// The language tag a fence's label maps to.
    pub fn from_tag(value: &str) -> (r: Lang)
        ensures
            crate::model::lang_view(r) == lang_of(value@),
    {
        if str_eq(value, "turbo") {
            Lang::Turbo
        } else if str_eq(value, "katex") {
            Lang::KaTeX
        } else if str_eq(value, "math") {
            Lang::KaTeX
        } else if str_eq(value, "rust") {
            Lang::Rust
        } else if str_eq(value, "nim") {
            Lang::Nim
        } else if str_eq(value, "python") {
            Lang::Python
        } else if str_eq(value, "c") {
            Lang::C
        } else if str_eq(value, "cpp") {
            Lang::CPP
        } else if str_eq(value, "c++") {
            Lang::CPP
        } else {
            Lang::Other(value.to_owned())
        }
    }
}

/// The character sequence `Lang::as_str` returns for each language tag.
pub open spec fn lang_str(l: Lang) -> Seq<char> {
    match l {
        Lang::Turbo => "turbo"@,
        Lang::KaTeX => "katex"@,
        Lang::Rust => "rust"@,
        Lang::Nim => "nim"@,
        Lang::Python => "python"@,
        Lang::C => "c"@,
        Lang::CPP => "cpp"@,
        Lang::Other(s) => s@,
    }
}

} // verus!

//! A small, fail-fast parser for resource attributes such as
//! `#[uniform(set = 0, binding = 1, stages = "vs|fs")]` or `#[texture(set = 0, binding = 2)]`,
//! working directly on token trees.
//!
//! Token trees are held as [`Tok`] values: a punctuation character, the text of an
//! identifier, the text of a literal (as the token prints, quotes included), or a
//! delimited group.
use vstd::prelude::*;
use crate::text::{chars_of, parse_u32, parses_unsigned, decimal_value, unsigned_digits, str_eq, string_of};

verus! {

#[derive(Clone, Copy, Debug, PartialEq, Eq, Structural)]
pub enum Delim {
    Parenthesis,
    Brace,
    Bracket,
    Invisible,
}

/// One token tree.
#[derive(Debug)]
pub enum Tok {
    Punct(char),
    Ident(String),
    Literal(String),
    Group(Delim, Vec<Tok>),
}

#[derive(Clone, Debug)]
pub struct UniformAttr {
    pub set: u32,
    pub binding: u32,
    pub stages: Option<String>,
}

#[derive(Clone, Debug)]
pub enum ResourceAttr {
    Uniform(UniformAttr),
    Texture { set: u32, binding: u32, stages: Option<String> },
    Sampler { set: u32, binding: u32, stages: Option<String> },
    Combined { set: u32, binding: u32, stages: Option<String> },
}

/// The kind of resource an attribute declares.
#[derive(Clone, Copy, Debug, PartialEq, Eq, Structural)]
pub enum AttrKind {
    Uniform,
    Texture,
    Sampler,
    Combined,
}

/// The parameters read so far: `set`, `binding` and `stages`.
pub type Params = (Option<u32>, Option<u32>, Option<Seq<char>>);

/// A parsed attribute as plain values: kind, set, binding and the text of `stages`.
pub type AttrModel = (AttrKind, u32, u32, Option<Seq<char>>);

pub open spec fn opt_view(s: Option<String>) -> Option<Seq<char>> {
    match s {
        Some(t) => Some(t@),
        None => None,
    }
}

/// The plain values of a parsed attribute.
pub open spec fn attr_model(a: ResourceAttr) -> AttrModel {
    match a {
        ResourceAttr::Uniform(u) => (AttrKind::Uniform, u.set, u.binding, opt_view(u.stages)),
        ResourceAttr::Texture { set, binding, stages } => (AttrKind::Texture, set, binding, opt_view(stages)),
        ResourceAttr::Sampler { set, binding, stages } => (AttrKind::Sampler, set, binding, opt_view(stages)),
        ResourceAttr::Combined { set, binding, stages } => (AttrKind::Combined, set, binding, opt_view(stages)),
    }
}

/// The value of an integer literal: its text must parse as a `u32`.
pub open spec fn lit_int(text: Seq<char>) -> Result<u32, Seq<char>> {
    if parses_unsigned(text, u32::MAX as nat) {
        Ok(decimal_value(unsigned_digits(text)) as u32)
    } else {
        Err("Invalid integer: "@ + text)
    }
}

/// The contents of a string literal: its text without the surrounding quotes.
pub open spec fn lit_string(text: Seq<char>) -> Result<Seq<char>, Seq<char>> {
    if text.len() >= 2 && text[0] == '"' && text.last() == '"' {
        Ok(text.subrange(1, text.len() - 1))
    } else {
        Err("Expected string literal, got: "@ + text)
    }
}

/// The integer value at position `j`.
pub open spec fn int_at(ts: Seq<Tok>, j: int) -> Result<u32, Seq<char>> {
    if 0 <= j < ts.len() && ts[j] is Literal {
        lit_int(ts[j]->Literal_0@)
    } else {
        Err("Expected integer literal"@)
    }
}

/// The string value at position `j`.
pub open spec fn string_at(ts: Seq<Tok>, j: int) -> Result<Seq<char>, Seq<char>> {
    if 0 <= j < ts.len() && ts[j] is Literal {
        lit_string(ts[j]->Literal_0@)
    } else {
        Err("Expected string literal"@)
    }
}

pub open spec fn is_punct(ts: Seq<Tok>, j: int, c: char) -> bool {
    0 <= j < ts.len() && ts[j] is Punct && ts[j]->Punct_0 == c
}

/// `key = value` pairs from position `i` on, separated by optional commas; later
/// values of a key replace earlier ones.
pub open spec fn params_from(ts: Seq<Tok>, i: int, acc: Params) -> Result<Params, Seq<char>>
    decreases ts.len() - i,
{
    if i < 0 || i >= ts.len() {
        Ok(acc)
    } else if !(ts[i] is Ident) {
        Err("Expected parameter name"@)
    } else if !is_punct(ts, i + 1, '=') {
        Err("Expected '='"@)
    } else {
        let key = ts[i]->Ident_0@;
        let next: Result<Params, Seq<char>> = if key == "set"@ {
            match int_at(ts, i + 2) {
                Ok(v) => Ok((Some(v), acc.1, acc.2)),
                Err(e) => Err(e),
            }
        } else if key == "binding"@ {
            match int_at(ts, i + 2) {
                Ok(v) => Ok((acc.0, Some(v), acc.2)),
                Err(e) => Err(e),
            }
        } else if key == "stages"@ {
            match string_at(ts, i + 2) {
                Ok(v) => Ok((acc.0, acc.1, Some(v))),
                Err(e) => Err(e),
            }
        } else {
            Err("Unknown parameter: "@ + key)
        };
        match next {
            Err(e) => Err(e),
            Ok(p) => if i + 3 >= ts.len() {
                Ok(p)
            } else if is_punct(ts, i + 3, ',') {
                params_from(ts, i + 4, p)
            } else {
                params_from(ts, i + 3, p)
            },
        }
    }
}

/// The parameters of an attribute: `set` and `binding` are required.
pub open spec fn spec_params(ts: Seq<Tok>) -> Result<(u32, u32, Option<Seq<char>>), Seq<char>> {
    match params_from(ts, 0, (None, None, None)) {
        Err(e) => Err(e),
        Ok(p) => match p.0 {
            None => Err("Missing 'set' parameter"@),
            Some(set) => match p.1 {
                None => Err("Missing 'binding' parameter"@),
                Some(binding) => Ok((set, binding, p.2)),
            },
        },
    }
}

/// The kind an attribute name declares.
pub open spec fn spec_attr_kind(name: Seq<char>) -> Option<AttrKind> {
    if name == "uniform"@ {
        Some(AttrKind::Uniform)
    } else if name == "texture"@ {
        Some(AttrKind::Texture)
    } else if name == "sampler"@ {
        Some(AttrKind::Sampler)
    } else if name == "combined"@ {
        Some(AttrKind::Combined)
    } else {
        None
    }
}

/// The contents of `#[..]`: a name, then its parameters in parentheses.
pub open spec fn spec_attr_content(ts: Seq<Tok>) -> Result<AttrModel, Seq<char>> {
    if !(ts.len() > 0 && ts[0] is Ident) {
        Err("Expected attribute name"@)
    } else if !(ts.len() > 1 && ts[1] is Group && ts[1]->Group_0 == Delim::Parenthesis) {
        Err("Expected '(...)'"@)
    } else {
        match spec_params(ts[1]->Group_1@) {
            Err(e) => Err(e),
            Ok(p) => match spec_attr_kind(ts[0]->Ident_0@) {
                Some(k) => Ok((k, p.0, p.1, p.2)),
                None => Err("Unknown attribute: "@ + ts[0]->Ident_0@),
            },
        }
    }
}

/// What parsing a whole attribute `#[..]` gives.
pub open spec fn spec_resource_attr(ts: Seq<Tok>) -> Result<AttrModel, Seq<char>> {
    if !is_punct(ts, 0, '#') {
        Err("Expected '#'"@)
    } else if !(ts.len() > 1 && ts[1] is Group && ts[1]->Group_0 == Delim::Bracket) {
        Err("Expected '[...]'"@)
    } else {
        spec_attr_content(ts[1]->Group_1@)
    }
}

/// A `String` holding `prefix` followed by `rest`.
fn message(prefix: &str, rest: &[char]) -> (r: String)
    ensures
        r@ == prefix@ + rest@,
{
    let mut cs = chars_of(prefix);
    let mut i: usize = 0;
    let ghost p = cs@;
    while i < rest.len()
        invariant
            i <= rest@.len(),
            p == prefix@,
            cs@ == p + rest@.take(i as int),
        decreases rest@.len() - i,
    {
        cs.push(rest[i]);
        assert(rest@.take(i + 1) =~= rest@.take(i as int).push(rest@[i as int]));
        i = i + 1;
    }
    assert(rest@.take(rest@.len() as int) =~= rest@);
    string_of(cs.as_slice())
}

/// A `String` holding `s`.
fn text(s: &str) -> (r: String)
    ensures
        r@ == s@,
{
    let cs = chars_of(s);
    string_of(cs.as_slice())
}

fn punct_at(ts: &Vec<Tok>, j: usize, c: char) -> (r: bool)
    ensures
        r == is_punct(ts@, j as int, c),
{
    if j < ts.len() {
        match &ts[j] {
            Tok::Punct(p) => *p == c,
            _ => false,
        }
    } else {
        false
    }
}

fn parse_int_at(ts: &Vec<Tok>, j: usize) -> (r: Result<u32, String>)
    ensures
        match int_at(ts@, j as int) {
            Ok(v) => r == Ok::<u32, String>(v),
            Err(e) => r is Err && r->Err_0@ == e,
        },
{
    if j < ts.len() {
        match &ts[j] {
            Tok::Literal(t) => {
                let cs = chars_of(t.as_str());
                match parse_u32(cs.as_slice()) {
                    Some(v) => Ok(v),
                    None => Err(message("Invalid integer: ", cs.as_slice())),
                }
            },
            _ => Err(text("Expected integer literal")),
        }
    } else {
        Err(text("Expected integer literal"))
    }
}

fn parse_string_at(ts: &Vec<Tok>, j: usize) -> (r: Result<String, String>)
    ensures
        match string_at(ts@, j as int) {
            Ok(v) => r is Ok && r->Ok_0@ == v,
            Err(e) => r is Err && r->Err_0@ == e,
        },
{
    if j < ts.len() {
        match &ts[j] {
            Tok::Literal(t) => {
                let cs = chars_of(t.as_str());
                let n = cs.len();
                if n >= 2 && cs[0] == '"' && cs[n - 1] == '"' {
                    let mut inner: Vec<char> = Vec::new();
                    let mut k: usize = 1;
                    while k < n - 1
                        invariant
                            1 <= k <= n - 1,
                            n == cs@.len(),
                            inner@ == cs@.subrange(1, k as int),
                        decreases n - 1 - k,
                    {
                        inner.push(cs[k]);
                        assert(cs@.subrange(1, k + 1) =~= cs@.subrange(1, k as int).push(cs@[k as int]));
                        k = k + 1;
                    }
                    Ok(string_of(inner.as_slice()))
                } else {
                    Err(message("Expected string literal, got: ", cs.as_slice()))
                }
            },
            _ => Err(text("Expected string literal")),
        }
    } else {
        Err(text("Expected string literal"))
    }
}

/// Reads `key = value` pairs: `set` and `binding` take integer literals, `stages` a
/// string literal.
fn parse_params(ts: &Vec<Tok>) -> (r: Result<(u32, u32, Option<String>), String>)
    ensures
        match spec_params(ts@) {
            Ok(p) => r is Ok && r->Ok_0.0 == p.0 && r->Ok_0.1 == p.1 && opt_view(r->Ok_0.2) == p.2,
            Err(e) => r is Err && r->Err_0@ == e,
        },
{
    let mut set: Option<u32> = None;
    let mut binding: Option<u32> = None;
    let mut stages: Option<String> = None;
    let mut i: usize = 0;
    let n = ts.len();
    let mut finished = false;
    while !finished && i < n
        invariant
            n == ts@.len(),
            i <= n,
            !finished ==> params_from(ts@, 0, (None, None, None)) == params_from(ts@, i as int, (set, binding, opt_view(stages))),
            finished ==> params_from(ts@, 0, (None, None, None)) == Ok::<Params, Seq<char>>((set, binding, opt_view(stages))),
        decreases n - i + (if finished { 0int } else { 1int }),
    {
        let key: &String = match &ts[i] {
            Tok::Ident(k) => k,
            _ => {
                return Err(text("Expected parameter name"));
            },
        };
        if !punct_at(ts, i + 1, '=') {
            return Err(text("Expected '='"));
        }
        let ghost acc = (set, binding, opt_view(stages));
        let k: &str = key.as_str();
        if str_eq(k, "set") {
            match parse_int_at(ts, i + 2) {
                Ok(v) => {
                    set = Some(v);
                },
                Err(e) => {
                    return Err(e);
                },
            }
        } else if str_eq(k, "binding") {
            match parse_int_at(ts, i + 2) {
                Ok(v) => {
                    binding = Some(v);
                },
                Err(e) => {
                    return Err(e);
                },
            }
        } else if str_eq(k, "stages") {
            match parse_string_at(ts, i + 2) {
                Ok(v) => {
                    stages = Some(v);
                },
                Err(e) => {
                    return Err(e);
                },
            }
        } else {
            let kc = chars_of(k);
            return Err(message("Unknown parameter: ", kc.as_slice()));
        }
        if i + 3 >= n {
            finished = true;
        } else if punct_at(ts, i + 3, ',') {
            i = i + 4;
        } else {
            i = i + 3;
        }
    }
    match set {
        None => Err(text("Missing 'set' parameter")),
        Some(s) => match binding {
            None => Err(text("Missing 'binding' parameter")),
            Some(b) => Ok((s, b, stages)),
        },
    }
}

fn parse_attr_content(ts: &Vec<Tok>) -> (r: Result<ResourceAttr, String>)
    ensures
        match spec_attr_content(ts@) {
            Ok(m) => r is Ok && attr_model(r->Ok_0) == m,
            Err(e) => r is Err && r->Err_0@ == e,
        },
{
    if ts.len() == 0 {
        return Err(text("Expected attribute name"));
    }
    let name: &String = match &ts[0] {
        Tok::Ident(k) => k,
        _ => {
            return Err(text("Expected attribute name"));
        },
    };
    if ts.len() < 2 {
        return Err(text("Expected '(...)'"));
    }
    let inner: &Vec<Tok> = match &ts[1] {
        Tok::Group(d, inner) => {
            if *d == Delim::Parenthesis {
                inner
            } else {
                return Err(text("Expected '(...)'"));
            }
        },
        _ => {
            return Err(text("Expected '(...)'"));
        },
    };
    let (set, binding, stages) = parse_params(inner)?;
    let nm: &str = name.as_str();
    if str_eq(nm, "uniform") {
        Ok(ResourceAttr::Uniform(UniformAttr { set, binding, stages }))
    } else if str_eq(nm, "texture") {
        Ok(ResourceAttr::Texture { set, binding, stages })
    } else if str_eq(nm, "sampler") {
        Ok(ResourceAttr::Sampler { set, binding, stages })
    } else if str_eq(nm, "combined") {
        Ok(ResourceAttr::Combined { set, binding, stages })
    } else {
        let nc = chars_of(nm);
        Err(message("Unknown attribute: ", nc.as_slice()))
    }
}

/// Parses a resource attribute `#[kind(set = .., binding = .., stages = "..")]`.
pub fn parse_resource_attr(tokens: &Vec<Tok>) -> (r: Result<ResourceAttr, String>)
    ensures
        match spec_resource_attr(tokens@) {
            Ok(m) => r is Ok && attr_model(r->Ok_0) == m,
            Err(e) => r is Err && r->Err_0@ == e,
        },
{
    if !punct_at(tokens, 0, '#') {
        return Err(text("Expected '#'"));
    }
    if tokens.len() < 2 {
        return Err(text("Expected '[...]'"));
    }
    match &tokens[1] {
        Tok::Group(d, inner) => {
            if *d == Delim::Bracket {
                parse_attr_content(inner)
            } else {
                Err(text("Expected '[...]'"))
            }
        },
        _ => Err(text("Expected '[...]'")),
    }
}

// ---------------------------------------------------------------------------
// `key = "value"` lists
// ---------------------------------------------------------------------------

/// The value `syn` reads from a string literal token (`LitStr::value`), or nothing when
/// the token is not a string literal.
pub uninterp spec fn syn_str_value(text: Seq<char>) -> Option<Seq<char>>;

/// Parses `text` as a `syn::LitStr` with `syn::parse_str` and gives `LitStr::value`: the
/// literal's contents with escapes resolved (raw strings too), or `None` when the text
/// is not a string literal. The contract names that value as a function of the text.
#[verifier::external_body]
fn lit_str_value(text: &str) -> (r: Option<String>)
    ensures
        opt_view(r) == syn_str_value(text@),
{
    syn::parse_str::<syn::LitStr>(text).ok().map(|l| l.value())
}

/// Where reading a `key = "value"` list stopped early: the key, when it and the `=` were
/// read, and the message.
#[derive(Debug)]
pub struct EntryStop {
    pub key: Option<String>,
    pub message: String,
}

/// The entries read from a `key = "value"` list, in order, up to where it stopped early.
#[derive(Debug)]
pub struct StringEntries {
    pub entries: Vec<(String, String)>,
    pub stop: Option<EntryStop>,
}

/// The string value of the token at `j`, when it is a string literal.
pub open spec fn str_lit_at(ts: Seq<Tok>, j: int) -> Option<Seq<char>> {
    if 0 <= j < ts.len() && ts[j] is Literal {
        syn_str_value(ts[j]->Literal_0@)
    } else {
        None
    }
}

/// Reads `key = "value"` entries from position `j` on, each optionally followed by a
/// comma: the entries up to the first that cannot be read, and why it cannot (the key
/// when it and `=` were read, and the message).
pub open spec fn entries_from(ts: Seq<Tok>, j: int) -> (Seq<(Seq<char>, Seq<char>)>, Option<(Option<Seq<char>>, Seq<char>)>)
    decreases ts.len() - j,
{
    if j < 0 || j >= ts.len() {
        (Seq::empty(), None)
    } else if !(ts[j] is Ident) {
        (Seq::empty(), Some((None, "expected identifier"@)))
    } else if !is_punct(ts, j + 1, '=') {
        (Seq::empty(), Some((None, "expected `=`"@)))
    } else {
        let key = ts[j]->Ident_0@;
        match str_lit_at(ts, j + 2) {
            None => (Seq::empty(), Some((Some(key), "expected string literal"@))),
            Some(v) => {
                let next = if is_punct(ts, j + 3, ',') {
                    j + 4
                } else {
                    j + 3
                };
                let rest = entries_from(ts, next);
                (seq![(key, v)] + rest.0, rest.1)
            },
        }
    }
}

pub open spec fn entry_views(es: Seq<(String, String)>) -> Seq<(Seq<char>, Seq<char>)> {
    es.map_values(|e: (String, String)| (e.0@, e.1@))
}

pub open spec fn stop_view(s: Option<EntryStop>) -> Option<(Option<Seq<char>>, Seq<char>)> {
    match s {
        Some(st) => Some((opt_view(st.key), st.message@)),
        None => None,
    }
}

/// Reads the `key = "value"` list of an attribute's tokens.
pub fn parse_string_entries(ts: &Vec<Tok>) -> (r: StringEntries)
    ensures
        (entry_views(r.entries@), stop_view(r.stop)) == entries_from(ts@, 0),
{
    let mut entries: Vec<(String, String)> = Vec::new();
    let mut j: usize = 0;
    while j < ts.len()
        invariant
            j <= ts@.len(),
            entry_views(entries@) + entries_from(ts@, j as int).0 == entries_from(ts@, 0).0,
            entries_from(ts@, j as int).1 == entries_from(ts@, 0).1,
        decreases ts@.len() - j,
    {
        let key = match &ts[j] {
            Tok::Ident(k) => k.clone(),
            _ => {
                assert(entry_views(entries@) =~= entries_from(ts@, 0).0);
                return StringEntries { entries, stop: Some(EntryStop { key: None, message: text("expected identifier") }) };
            },
        };
        if !punct_at(ts, j + 1, '=') {
            assert(entry_views(entries@) =~= entries_from(ts@, 0).0);
            return StringEntries { entries, stop: Some(EntryStop { key: None, message: text("expected `=`") }) };
        }
        let value = if j + 2 < ts.len() {
            match &ts[j + 2] {
                Tok::Literal(t) => lit_str_value(t.as_str()),
                _ => None,
            }
        } else {
            None
        };
        match value {
            None => {
                assert(entry_views(entries@) =~= entries_from(ts@, 0).0);
                return StringEntries {
                    entries,
                    stop: Some(EntryStop { key: Some(key), message: text("expected string literal") }),
                };
            },
            Some(v) => {
                let ghost before = entry_views(entries@);
                entries.push((key, v));
                let next = if punct_at(ts, j + 3, ',') {
                    j + 4
                } else {
                    j + 3
                };
                assert(entry_views(entries@) =~= before.push((ts@[j as int]->Ident_0@, v@)));
                assert(entry_views(entries@) + entries_from(ts@, next as int).0 =~= before + entries_from(
                    ts@,
                    j as int,
                ).0);
                j = next;
            },
        }
    }
    assert(entry_views(entries@) =~= entries_from(ts@, 0).0);
    StringEntries { entries, stop: None }
}

} // verus!

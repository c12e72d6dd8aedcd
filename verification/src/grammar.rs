//! The attribute-list grammar: `"{:" WS* Class* Id? Attr* "}"`.
//!
//! The grammar is given twice: once as spec functions over `Seq<char>`, which
//! are the reference meaning, and once as executable cursor-based parsers that
//! are proved to return exactly what the spec functions denote.  A parser
//! takes the input and a start position and returns `Some((end, value))` on
//! success — the remainder is `input[end..]` — or `None` on failure, in which
//! case no input is consumed.

use vstd::prelude::*;

verus! {

/// One `key="value"` pair.  The key is a non-empty alphanumeric identifier;
/// the value is any text free of the double-quote character.
#[derive(Debug, Clone, PartialEq, Eq)]
pub struct Attribute {
    pub key: Vec<char>,
    pub value: Vec<char>,
}

/// The mathematical value of an [`Attribute`].
pub struct AttributeView {
    pub key: Seq<char>,
    pub value: Seq<char>,
}

impl View for Attribute {
    type V = AttributeView;

    open spec fn view(&self) -> AttributeView {
        AttributeView { key: self.key@, value: self.value@ }
    }
}

/// A single class token: a non-empty alphanumeric identifier.
#[derive(Debug, Clone, PartialEq, Eq)]
pub struct Class(pub Vec<char>);

impl View for Class {
    type V = Seq<char>;

    open spec fn view(&self) -> Seq<char> {
        self.0@
    }
}

/// The parsed value of a whole `{:...}` annotation: the class tokens in
/// source order (duplicates kept), the optional id, and the `key="value"`
/// pairs in source order (duplicate keys kept).
#[derive(Debug, Clone, PartialEq, Eq)]
pub struct AttrListDef {
    pub classes: Vec<Class>,
    pub id: Option<Vec<char>>,
    pub attributes: Vec<Attribute>,
}

/// The mathematical value of an [`AttrListDef`].
pub struct AttrListDefView {
    pub classes: Seq<Seq<char>>,
    pub id: Option<Seq<char>>,
    pub attributes: Seq<AttributeView>,
}

/// The views of a sequence of parsed classes.
pub open spec fn classes_view(v: Seq<Class>) -> Seq<Seq<char>> {
    v.map_values(|c: Class| c@)
}

/// The views of a sequence of parsed attributes.
pub open spec fn attrs_view(v: Seq<Attribute>) -> Seq<AttributeView> {
    v.map_values(|a: Attribute| a@)
}

impl View for AttrListDef {
    type V = AttrListDefView;

    open spec fn view(&self) -> AttrListDefView {
        AttrListDefView {
            classes: classes_view(self.classes@),
            id: match self.id {
                Some(v) => Some(v@),
                None => None,
            },
            attributes: attrs_view(self.attributes@),
        }
    }
}

impl Default for AttrListDef {
    /// The empty attribute list: no classes, no id, no attributes.
    fn default() -> (d: AttrListDef)
        ensures
            d@.classes.len() == 0,
            d@.id is None,
            d@.attributes.len() == 0,
    {
        AttrListDef { classes: Vec::new(), id: None, attributes: Vec::new() }
    }
}

/// The whitespace characters discarded between grammar tokens.
pub open spec fn is_space_char(c: char) -> bool {
    c == ' ' || c == '\t' || c == '\r' || c == '\n'
}

/// ASCII alphanumeric: the only characters allowed in identifiers.
pub open spec fn is_alnum_char(c: char) -> bool {
    (48 <= c as u32 && c as u32 <= 57) || (65 <= c as u32 && c as u32 <= 90) || (97 <= c as u32
        && c as u32 <= 122)
}

/// Position right after the run of whitespace starting at `i`.
pub open spec fn spec_ws_end(s: Seq<char>, i: int) -> int
    decreases s.len() - i,
{
    if 0 <= i && i < s.len() && is_space_char(s[i]) {
        spec_ws_end(s, i + 1)
    } else {
        i
    }
}

/// Position right after the run of alphanumeric characters starting at `i`.
pub open spec fn spec_ident_end(s: Seq<char>, i: int) -> int
    decreases s.len() - i,
{
    if 0 <= i && i < s.len() && is_alnum_char(s[i]) {
        spec_ident_end(s, i + 1)
    } else {
        i
    }
}

/// `WS* AlnumIdent WS*`: an identifier with surrounding whitespace discarded.
pub open spec fn spec_identifier(s: Seq<char>, i: int) -> Option<(int, Seq<char>)> {
    let a = spec_ws_end(s, i);
    let b = spec_ident_end(s, a);
    if b == a {
        None
    } else {
        Some((spec_ws_end(s, b), s.subrange(a, b)))
    }
}

/// `WS* "." AlnumIdent WS*`: one class token.
pub open spec fn spec_class(s: Seq<char>, i: int) -> Option<(int, Seq<char>)> {
    let a = spec_ws_end(s, i);
    if 0 <= a && a < s.len() && s[a] == '.' {
        let b = spec_ident_end(s, a + 1);
        if b == a + 1 {
            None
        } else {
            Some((spec_ws_end(s, b), s.subrange(a + 1, b)))
        }
    } else {
        None
    }
}

/// `WS* "#" AlnumIdent WS*`: the id token.
pub open spec fn spec_id(s: Seq<char>, i: int) -> Option<(int, Seq<char>)> {
    let a = spec_ws_end(s, i);
    if 0 <= a && a < s.len() && s[a] == '#' {
        let b = spec_ident_end(s, a + 1);
        if b == a + 1 {
            None
        } else {
            Some((spec_ws_end(s, b), s.subrange(a + 1, b)))
        }
    } else {
        None
    }
}

/// Position of the first `"` at or after `i`, if any.
pub open spec fn spec_find_quote(s: Seq<char>, i: int) -> Option<int>
    decreases s.len() - i,
{
    if 0 <= i && i < s.len() {
        if s[i] == '"' {
            Some(i)
        } else {
            spec_find_quote(s, i + 1)
        }
    } else {
        None
    }
}

/// `'"' NonQuoteChar* '"'`: a quoted value; fails when the closing quote is
/// missing.  No escaping: the first `"` after the opener always closes it.
pub open spec fn spec_string(s: Seq<char>, i: int) -> Option<(int, Seq<char>)> {
    if 0 <= i && i < s.len() && s[i] == '"' {
        match spec_find_quote(s, i + 1) {
            Some(q) => Some((q + 1, s.subrange(i + 1, q))),
            None => None,
        }
    } else {
        None
    }
}

/// `AlnumIdent WS* "=" WS* '"' NonQuoteChar* '"'`: one attribute pair.
pub open spec fn spec_attr(s: Seq<char>, i: int) -> Option<(int, AttributeView)> {
    match spec_identifier(s, i) {
        Some((j, key)) => {
            let a = spec_ws_end(s, j);
            if 0 <= a && a < s.len() && s[a] == '=' {
                let b = spec_ws_end(s, a + 1);
                match spec_string(s, b) {
                    Some((e, value)) => Some((e, AttributeView { key, value })),
                    None => None,
                }
            } else {
                None
            }
        },
        None => None,
    }
}

/// `Class*`: zero or more class tokens; never fails, consumes what matched.
pub open spec fn spec_classes(s: Seq<char>, i: int) -> (int, Seq<Seq<char>>)
    decreases s.len() - i,
{
    match spec_class(s, i) {
        Some((j, v)) => {
            if i < j && j <= s.len() {
                let r = spec_classes(s, j);
                (r.0, seq![v] + r.1)
            } else {
                (i, Seq::<Seq<char>>::empty())
            }
        },
        None => (i, Seq::<Seq<char>>::empty()),
    }
}

/// `(WS* Attr WS*)*`: zero or more attribute pairs; never fails.
pub open spec fn spec_attrs(s: Seq<char>, i: int) -> (int, Seq<AttributeView>)
    decreases s.len() - i,
{
    let a = spec_ws_end(s, i);
    match spec_attr(s, a) {
        Some((j, at)) => {
            let b = spec_ws_end(s, j);
            if i < b && b <= s.len() {
                let r = spec_attrs(s, b);
                (r.0, seq![at] + r.1)
            } else {
                (i, Seq::<AttributeView>::empty())
            }
        },
        None => (i, Seq::<AttributeView>::empty()),
    }
}

/// The whole construct: `"{:" Class* Id? Attr* "}"`.  Trailing input after
/// the closing brace is left to the caller; classes, id and attributes must
/// appear in that relative order or the whole construct fails.
pub open spec fn spec_attr_list_def(s: Seq<char>, i: int) -> Option<(int, AttrListDefView)> {
    if 0 <= i && i + 1 < s.len() && s[i] == '{' && s[i + 1] == ':' {
        let r1 = spec_classes(s, i + 2);
        let r2 = match spec_id(s, r1.0) {
            Some((q, v)) => (q, Some(v)),
            None => (r1.0, None::<Seq<char>>),
        };
        let r3 = spec_attrs(s, r2.0);
        if 0 <= r3.0 && r3.0 < s.len() && s[r3.0] == '}' {
            Some(
                (
                    r3.0 + 1,
                    AttrListDefView { classes: r1.1, id: r2.1, attributes: r3.1 },
                ),
            )
        } else {
            None
        }
    } else {
        None
    }
}

/// The single-class shorthand `{:.ident}`: exactly one class, then the brace.
pub open spec fn spec_wrapped(s: Seq<char>, i: int) -> Option<(int, Seq<char>)> {
    if 0 <= i && i + 1 < s.len() && s[i] == '{' && s[i + 1] == ':' {
        match spec_class(s, i + 2) {
            Some((j, v)) => {
                if 0 <= j && j < s.len() && s[j] == '}' {
                    Some((j + 1, v))
                } else {
                    None
                }
            },
            None => None,
        }
    } else {
        None
    }
}

pub proof fn lemma_ws_end_bounds(s: Seq<char>, i: int)
    requires
        0 <= i <= s.len(),
    ensures
        i <= spec_ws_end(s, i) <= s.len(),
    decreases s.len() - i,
{
    if i < s.len() && is_space_char(s[i]) {
        lemma_ws_end_bounds(s, i + 1);
    }
}

pub proof fn lemma_ident_end_bounds(s: Seq<char>, i: int)
    requires
        0 <= i <= s.len(),
    ensures
        i <= spec_ident_end(s, i) <= s.len(),
    decreases s.len() - i,
{
    if i < s.len() && is_alnum_char(s[i]) {
        lemma_ident_end_bounds(s, i + 1);
    }
}

pub proof fn lemma_identifier_bounds(s: Seq<char>, i: int)
    requires
        0 <= i <= s.len(),
        spec_identifier(s, i) is Some,
    ensures
        i < spec_identifier(s, i)->Some_0.0 <= s.len(),
{
    lemma_ws_end_bounds(s, i);
    let a = spec_ws_end(s, i);
    lemma_ident_end_bounds(s, a);
    let b = spec_ident_end(s, a);
    lemma_ws_end_bounds(s, b);
}

pub proof fn lemma_class_bounds(s: Seq<char>, i: int)
    requires
        0 <= i <= s.len(),
        spec_class(s, i) is Some,
    ensures
        i < spec_class(s, i)->Some_0.0 <= s.len(),
{
    lemma_ws_end_bounds(s, i);
    let a = spec_ws_end(s, i);
    lemma_ident_end_bounds(s, a + 1);
    let b = spec_ident_end(s, a + 1);
    lemma_ws_end_bounds(s, b);
}

pub proof fn lemma_id_bounds(s: Seq<char>, i: int)
    requires
        0 <= i <= s.len(),
        spec_id(s, i) is Some,
    ensures
        i < spec_id(s, i)->Some_0.0 <= s.len(),
{
    lemma_ws_end_bounds(s, i);
    let a = spec_ws_end(s, i);
    lemma_ident_end_bounds(s, a + 1);
    let b = spec_ident_end(s, a + 1);
    lemma_ws_end_bounds(s, b);
}

pub proof fn lemma_find_quote_bounds(s: Seq<char>, i: int)
    requires
        0 <= i <= s.len(),
        spec_find_quote(s, i) is Some,
    ensures
        i <= spec_find_quote(s, i)->Some_0 < s.len(),
        s[spec_find_quote(s, i)->Some_0] == '"',
    decreases s.len() - i,
{
    if i < s.len() && s[i] != '"' {
        lemma_find_quote_bounds(s, i + 1);
    }
}

pub proof fn lemma_string_bounds(s: Seq<char>, i: int)
    requires
        0 <= i <= s.len(),
        spec_string(s, i) is Some,
    ensures
        i < spec_string(s, i)->Some_0.0 <= s.len(),
{
    lemma_find_quote_bounds(s, i + 1);
}

pub proof fn lemma_attr_bounds(s: Seq<char>, i: int)
    requires
        0 <= i <= s.len(),
        spec_attr(s, i) is Some,
    ensures
        i < spec_attr(s, i)->Some_0.0 <= s.len(),
{
    lemma_identifier_bounds(s, i);
    let j = spec_identifier(s, i)->Some_0.0;
    lemma_ws_end_bounds(s, j);
    let a = spec_ws_end(s, j);
    lemma_ws_end_bounds(s, a + 1);
    let b = spec_ws_end(s, a + 1);
    lemma_string_bounds(s, b);
}

pub proof fn lemma_classes_bounds(s: Seq<char>, i: int)
    requires
        0 <= i <= s.len(),
    ensures
        i <= spec_classes(s, i).0 <= s.len(),
    decreases s.len() - i,
{
    if spec_classes(s, i) != (i, Seq::<Seq<char>>::empty()) || spec_class(s, i) is Some {
        match spec_class(s, i) {
            Some((j, v)) => {
                lemma_class_bounds(s, i);
                lemma_classes_bounds(s, j);
            },
            None => {},
        }
    }
}

pub proof fn lemma_attrs_bounds(s: Seq<char>, i: int)
    requires
        0 <= i <= s.len(),
    ensures
        i <= spec_attrs(s, i).0 <= s.len(),
    decreases s.len() - i,
{
    lemma_ws_end_bounds(s, i);
    let a = spec_ws_end(s, i);
    match spec_attr(s, a) {
        Some((j, at)) => {
            lemma_attr_bounds(s, a);
            lemma_ws_end_bounds(s, j);
            let b = spec_ws_end(s, j);
            lemma_attrs_bounds(s, b);
        },
        None => {},
    }
}

/// Every successful parse of the whole construct ends just past a `}`: the
/// closing brace is always consumed.
pub proof fn lemma_attr_list_def_closing_brace(s: Seq<char>, i: int)
    requires
        0 <= i <= s.len(),
        spec_attr_list_def(s, i) is Some,
    ensures
        i < spec_attr_list_def(s, i)->Some_0.0 <= s.len(),
        s[spec_attr_list_def(s, i)->Some_0.0 - 1] == '}',
{
    lemma_classes_bounds(s, i + 2);
    let p1 = spec_classes(s, i + 2).0;
    let p2 = match spec_id(s, p1) {
        Some((q, v)) => q,
        None => p1,
    };
    if spec_id(s, p1) is Some {
        lemma_id_bounds(s, p1);
    }
    lemma_attrs_bounds(s, p2);
}

/// Any input with no `}` anywhere after the start position fails to parse,
/// and (parsers being all-or-nothing) consumes nothing.
pub proof fn lemma_missing_brace_fails(s: Seq<char>, i: int)
    requires
        0 <= i <= s.len(),
        forall|j: int| i <= j < s.len() ==> s[j] != '}',
    ensures
        spec_attr_list_def(s, i) is None,
{
    if spec_attr_list_def(s, i) is Some {
        lemma_attr_list_def_closing_brace(s, i);
    }
}

fn char_is_space(c: char) -> (b: bool)
    ensures
        b == is_space_char(c),
{
    c == ' ' || c == '\t' || c == '\r' || c == '\n'
}

fn char_is_alnum(c: char) -> (b: bool)
    ensures
        b == is_alnum_char(c),
{
    let u = c as u32;
    (48 <= u && u <= 57) || (65 <= u && u <= 90) || (97 <= u && u <= 122)
}

fn skip_ws(input: &Vec<char>, pos: usize) -> (r: usize)
    requires
        pos <= input.len(),
    ensures
        r as int == spec_ws_end(input@, pos as int),
        pos <= r <= input.len(),
{
    let mut i = pos;
    while i < input.len() && char_is_space(input[i])
        invariant
            pos <= i <= input.len(),
            spec_ws_end(input@, pos as int) == spec_ws_end(input@, i as int),
        decreases input.len() - i,
    {
        i = i + 1;
    }
    i
}

fn scan_ident(input: &Vec<char>, pos: usize) -> (r: usize)
    requires
        pos <= input.len(),
    ensures
        r as int == spec_ident_end(input@, pos as int),
        pos <= r <= input.len(),
{
    let mut i = pos;
    while i < input.len() && char_is_alnum(input[i])
        invariant
            pos <= i <= input.len(),
            spec_ident_end(input@, pos as int) == spec_ident_end(input@, i as int),
        decreases input.len() - i,
    {
        i = i + 1;
    }
    i
}

fn find_quote(input: &Vec<char>, pos: usize) -> (r: Option<usize>)
    requires
        pos <= input.len(),
    ensures
        match r {
            Some(q) => spec_find_quote(input@, pos as int) == Some(q as int) && pos <= q
                < input.len(),
            None => spec_find_quote(input@, pos as int) is None,
        },
{
    let mut i = pos;
    while i < input.len()
        invariant
            pos <= i <= input.len(),
            spec_find_quote(input@, pos as int) == spec_find_quote(input@, i as int),
        decreases input.len() - i,
    {
        if input[i] == '"' {
            return Some(i);
        }
        i = i + 1;
    }
    None
}

pub(crate) fn copy_range(input: &Vec<char>, from: usize, to: usize) -> (r: Vec<char>)
    requires
        from <= to <= input.len(),
    ensures
        r@ == input@.subrange(from as int, to as int),
{
    let mut r: Vec<char> = Vec::new();
    let mut i = from;
    while i < to
        invariant
            from <= i <= to <= input.len(),
            r@ == input@.subrange(from as int, i as int),
        decreases to - i,
    {
        r.push(input[i]);
        proof {
            assert(input@.subrange(from as int, i as int).push(input@[i as int]) =~= input@
                .subrange(from as int, i + 1));
        }
        i = i + 1;
    }
    r
}

/// Parses `WS* AlnumIdent WS*` at `pos`; the value is the identifier alone.
pub fn identifier(input: &Vec<char>, pos: usize) -> (r: Option<(usize, Vec<char>)>)
    requires
        pos <= input.len(),
    ensures
        match r {
            Some(v) => spec_identifier(input@, pos as int) == Some((v.0 as int, v.1@)) && pos < v.0
                <= input.len(),
            None => spec_identifier(input@, pos as int) is None,
        },
{
    let a = skip_ws(input, pos);
    let b = scan_ident(input, a);
    if b == a {
        None
    } else {
        let v = copy_range(input, a, b);
        let p = skip_ws(input, b);
        Some((p, v))
    }
}

/// Parses one class token, `WS* "." AlnumIdent WS*`, at `pos`; the value is
/// the identifier after the dot.
pub fn class(input: &Vec<char>, pos: usize) -> (r: Option<(usize, Vec<char>)>)
    requires
        pos <= input.len(),
    ensures
        match r {
            Some(v) => spec_class(input@, pos as int) == Some((v.0 as int, v.1@)) && pos < v.0
                <= input.len(),
            None => spec_class(input@, pos as int) is None,
        },
{
    let a = skip_ws(input, pos);
    if a < input.len() && input[a] == '.' {
        let b = scan_ident(input, a + 1);
        if b == a + 1 {
            None
        } else {
            let v = copy_range(input, a + 1, b);
            let p = skip_ws(input, b);
            Some((p, v))
        }
    } else {
        None
    }
}

/// Parses the id token, `WS* "#" AlnumIdent WS*`, at `pos`; the value is the
/// identifier after the hash.
pub fn id(input: &Vec<char>, pos: usize) -> (r: Option<(usize, Vec<char>)>)
    requires
        pos <= input.len(),
    ensures
        match r {
            Some(v) => spec_id(input@, pos as int) == Some((v.0 as int, v.1@)) && pos < v.0
                <= input.len(),
            None => spec_id(input@, pos as int) is None,
        },
{
    let a = skip_ws(input, pos);
    if a < input.len() && input[a] == '#' {
        let b = scan_ident(input, a + 1);
        if b == a + 1 {
            None
        } else {
            let v = copy_range(input, a + 1, b);
            let p = skip_ws(input, b);
            Some((p, v))
        }
    } else {
        None
    }
}

/// Parses a quoted value, `'"' NonQuoteChar* '"'`, at `pos`; the value is the
/// text between the quotes.
pub fn string(input: &Vec<char>, pos: usize) -> (r: Option<(usize, Vec<char>)>)
    requires
        pos <= input.len(),
    ensures
        match r {
            Some(v) => spec_string(input@, pos as int) == Some((v.0 as int, v.1@)) && pos < v.0
                <= input.len(),
            None => spec_string(input@, pos as int) is None,
        },
{
    if pos < input.len() && input[pos] == '"' {
        match find_quote(input, pos + 1) {
            Some(q) => {
                let v = copy_range(input, pos + 1, q);
                Some((q + 1, v))
            },
            None => None,
        }
    } else {
        None
    }
}

/// Parses one `key = "value"` pair at `pos`.
pub fn attr(input: &Vec<char>, pos: usize) -> (r: Option<(usize, Attribute)>)
    requires
        pos <= input.len(),
    ensures
        match r {
            Some(v) => spec_attr(input@, pos as int) == Some((v.0 as int, v.1@)) && pos < v.0
                <= input.len(),
            None => spec_attr(input@, pos as int) is None,
        },
{
    match identifier(input, pos) {
        Some((j, key)) => {
            let a = skip_ws(input, j);
            if a < input.len() && input[a] == '=' {
                let b = skip_ws(input, a + 1);
                match string(input, b) {
                    Some((e, value)) => Some((e, Attribute { key, value })),
                    None => None,
                }
            } else {
                None
            }
        },
        None => None,
    }
}

/// Parses zero or more whitespace-separated attribute pairs at `pos`; never
/// fails, and stops before the first text that is not an attribute.
pub fn attributes(input: &Vec<char>, pos: usize) -> (r: (usize, Vec<Attribute>))
    requires
        pos <= input.len(),
    ensures
        r.0 as int == spec_attrs(input@, pos as int).0,
        attrs_view(r.1@) == spec_attrs(input@, pos as int).1,
        pos <= r.0 <= input.len(),
{
    let mut cur = pos;
    let mut out: Vec<Attribute> = Vec::new();
    loop
        invariant
            pos <= cur <= input.len(),
            spec_attrs(input@, pos as int).0 == spec_attrs(input@, cur as int).0,
            spec_attrs(input@, pos as int).1 == attrs_view(out@) + spec_attrs(
                input@,
                cur as int,
            ).1,
        ensures
            pos <= cur <= input.len(),
            spec_attrs(input@, pos as int).0 == cur as int,
            spec_attrs(input@, pos as int).1 == attrs_view(out@),
        decreases input.len() - cur,
    {
        let a = skip_ws(input, cur);
        let parsed = attr(input, a);
        match parsed {
            Some((j, at)) => {
                let b = skip_ws(input, j);
                proof {
                    assert(attrs_view(out@.push(at)) =~= attrs_view(out@) + seq![at@]);
                    assert((attrs_view(out@) + seq![at@]) + spec_attrs(input@, b as int).1
                        =~= attrs_view(out@) + (seq![at@] + spec_attrs(input@, b as int).1));
                }
                out.push(at);
                cur = b;
            },
            None => {
                proof {
                    assert(attrs_view(out@) + Seq::<AttributeView>::empty() =~= attrs_view(out@));
                }
                break ;
            },
        }
    }
    (cur, out)
}

fn classes(input: &Vec<char>, pos: usize) -> (r: (usize, Vec<Class>))
    requires
        pos <= input.len(),
    ensures
        r.0 as int == spec_classes(input@, pos as int).0,
        classes_view(r.1@) == spec_classes(input@, pos as int).1,
        pos <= r.0 <= input.len(),
{
    let mut cur = pos;
    let mut out: Vec<Class> = Vec::new();
    loop
        invariant
            pos <= cur <= input.len(),
            spec_classes(input@, pos as int).0 == spec_classes(input@, cur as int).0,
            spec_classes(input@, pos as int).1 == classes_view(out@) + spec_classes(
                input@,
                cur as int,
            ).1,
        ensures
            pos <= cur <= input.len(),
            spec_classes(input@, pos as int).0 == cur as int,
            spec_classes(input@, pos as int).1 == classes_view(out@),
        decreases input.len() - cur,
    {
        let parsed = class(input, cur);
        match parsed {
            Some((j, v)) => {
                proof {
                    assert(classes_view(out@.push(Class(v))) =~= classes_view(out@) + seq![v@]);
                    assert((classes_view(out@) + seq![v@]) + spec_classes(input@, j as int).1
                        =~= classes_view(out@) + (seq![v@] + spec_classes(input@, j as int).1));
                }
                out.push(Class(v));
                cur = j;
            },
            None => {
                proof {
                    assert(classes_view(out@) + Seq::<Seq<char>>::empty() =~= classes_view(out@));
                }
                break ;
            },
        }
    }
    (cur, out)
}

/// Parses a whole `{:...}` annotation at `pos`.  On success the value holds
/// the classes, id and attributes in source order; text after the closing
/// brace is not consumed and not examined.  On failure nothing is consumed.
pub fn attr_list_def(input: &Vec<char>, pos: usize) -> (r: Option<(usize, AttrListDef)>)
    requires
        pos <= input.len(),
    ensures
        match r {
            Some(v) => spec_attr_list_def(input@, pos as int) == Some((v.0 as int, v.1@)) && pos
                < v.0 <= input.len(),
            None => spec_attr_list_def(input@, pos as int) is None,
        },
{
    if pos < input.len() && pos + 1 < input.len() && input[pos] == '{' && input[pos + 1] == ':' {
        let (p1, cls) = classes(input, pos + 2);
        let (p2, idv) = (match id(input, p1) {
            Some((q, v)) => (q, Some(v)),
            None => (p1, None),
        });
        let (p3, ats) = attributes(input, p2);
        if p3 < input.len() && input[p3] == '}' {
            Some((p3 + 1, AttrListDef { classes: cls, id: idv, attributes: ats }))
        } else {
            None
        }
    } else {
        None
    }
}

/// Parses the single-class shorthand `{:.ident}` at `pos`; the value is the
/// class token alone.
pub fn wrapped(input: &Vec<char>, pos: usize) -> (r: Option<(usize, Vec<char>)>)
    requires
        pos <= input.len(),
    ensures
        match r {
            Some(v) => spec_wrapped(input@, pos as int) == Some((v.0 as int, v.1@)) && pos < v.0
                <= input.len(),
            None => spec_wrapped(input@, pos as int) is None,
        },
{
    if pos < input.len() && pos + 1 < input.len() && input[pos] == '{' && input[pos + 1] == ':' {
        match class(input, pos + 2) {
            Some((j, v)) => {
                if j < input.len() && input[j] == '}' {
                    Some((j + 1, v))
                } else {
                    None
                }
            },
            None => None,
        }
    } else {
        None
    }
}

/// Succeeds on any input: consumes everything and yields it unchanged, the
/// remainder being empty.
pub fn any(input: &Vec<char>, pos: usize) -> (r: (usize, Vec<char>))
    requires
        pos <= input.len(),
    ensures
        r.0 == input.len(),
        r.1@ == input@.subrange(pos as int, input@.len() as int),
{
    let v = copy_range(input, pos, input.len());
    (input.len(), v)
}

} // verus!

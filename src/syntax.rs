//! The syntax of build files: a sequence of rule calls `kind(name = value, ...)`.
//!
//! A value is a quoted string, a list, or any other balanced text up to the next `,`,
//! `)` or `]`; of a list only its string items are kept. `#` starts a comment that runs
//! to the end of the line.
use vstd::prelude::*;
use crate::text::{chars_of, string_of, texts};

verus! {

/// The model of an attribute value.
pub enum ValueModel {
    Text(Seq<char>),
    List(Seq<Seq<char>>),
    Other(Seq<char>),
}

/// An attribute value as written in a build file.
#[derive(Debug, Clone)]
pub enum AttrValue {
    /// A quoted string, without its quotes.
    Text(String),
    /// A list, with its string items in order.
    List(Vec<String>),
    /// Any other value, as written.
    Other(String),
}

impl View for AttrValue {
    type V = ValueModel;

    open spec fn view(&self) -> ValueModel {
        match self {
            AttrValue::Text(s) => ValueModel::Text(s@),
            AttrValue::List(v) => ValueModel::List(texts(v@)),
            AttrValue::Other(s) => ValueModel::Other(s@),
        }
    }
}

impl AttrValue {
    /// A copy of this value.
    pub fn duplicate(&self) -> (r: AttrValue)
        ensures
            r@ == self@,
    {
        match self {
            AttrValue::Text(s) => AttrValue::Text(s.clone()),
            AttrValue::List(v) => AttrValue::List(copy_strings(v)),
            AttrValue::Other(s) => AttrValue::Other(s.clone()),
        }
    }
}

/// A copy of a list of strings.
pub fn copy_strings(v: &Vec<String>) -> (r: Vec<String>)
    ensures
        texts(r@) == texts(v@),
{
    let mut r: Vec<String> = Vec::new();
    let mut i: usize = 0;
    while i < v.len()
        invariant
            i <= v@.len(),
            r@.len() == i,
            forall|j: int| 0 <= j < i ==> r@[j]@ == v@[j]@,
        decreases v@.len() - i,
    {
        r.push(v[i].clone());
        i += 1;
    }
    assert(texts(r@) =~= texts(v@));
    r
}

/// The model of a rule call: its kind and its arguments, a positional one with an empty
/// name.
pub type CallModel = (Seq<char>, Seq<(Seq<char>, ValueModel)>);

/// The models of a call's arguments.
pub open spec fn args_view(v: Seq<(String, AttrValue)>) -> Seq<(Seq<char>, ValueModel)> {
    v.map_values(|a: (String, AttrValue)| (a.0@, a.1@))
}

/// The models of a sequence of calls.
pub open spec fn calls_view(v: Seq<RuleCall>) -> Seq<CallModel> {
    v.map_values(|c: RuleCall| c@)
}

/// One rule call of a build file.
#[derive(Debug, Clone)]
pub struct RuleCall {
    pub kind: String,
    pub args: Vec<(String, AttrValue)>,
}

impl View for RuleCall {
    type V = CallModel;

    open spec fn view(&self) -> CallModel {
        (self.kind@, args_view(self.args@))
    }
}

pub open spec fn is_space(c: char) -> bool {
    c == ' ' || c == '\t' || c == '\n' || c == '\r'
}

pub open spec fn is_ident_start(c: char) -> bool {
    (0x61 <= c as u32 <= 0x7a) || (0x41 <= c as u32 <= 0x5a) || c == '_'
}

pub open spec fn is_ident_char(c: char) -> bool {
    is_ident_start(c) || (0x30 <= c as u32 <= 0x39) || c == '.'
}

pub open spec fn is_quote(c: char) -> bool {
    c == '"' || c == '\''
}

/// Whether `c` ends a value.
pub open spec fn is_delim(c: char) -> bool {
    c == ',' || c == ')' || c == ']'
}

/// The first position at or after `i` that is neither blank nor inside a comment.
pub open spec fn skip_from(s: Seq<char>, i: int, in_comment: bool) -> int
    decreases s.len() - i,
{
    if i < 0 || i >= s.len() {
        i
    } else if in_comment {
        skip_from(s, i + 1, s[i] != '\n')
    } else if is_space(s[i]) {
        skip_from(s, i + 1, false)
    } else if s[i] == '#' {
        skip_from(s, i + 1, true)
    } else {
        i
    }
}

pub open spec fn skip(s: Seq<char>, i: int) -> int {
    skip_from(s, i, false)
}

/// The end of the identifier characters from `i`.
pub open spec fn ident_end(s: Seq<char>, i: int) -> int
    decreases s.len() - i,
{
    if 0 <= i < s.len() && is_ident_char(s[i]) {
        ident_end(s, i + 1)
    } else {
        i
    }
}

/// The position of the first `q` at or after `i`.
pub open spec fn quote_close(s: Seq<char>, i: int, q: char) -> Option<int>
    decreases s.len() - i,
{
    if i < 0 || i >= s.len() {
        None
    } else if s[i] == q {
        Some(i)
    } else {
        quote_close(s, i + 1, q)
    }
}

/// The end of an unstructured value from `i`: the first `,`, `)` or `]` outside brackets
/// and quotes.
pub open spec fn raw_end(s: Seq<char>, i: int, depth: nat, quote: Option<char>) -> Option<int>
    decreases s.len() - i,
{
    if i < 0 || i >= s.len() {
        None
    } else {
        let c = s[i];
        match quote {
            Some(q) => raw_end(s, i + 1, depth, if c == q { None } else { Some(q) }),
            None => if is_quote(c) {
                raw_end(s, i + 1, depth, Some(c))
            } else if c == '(' || c == '[' || c == '{' {
                raw_end(s, i + 1, depth + 1, None)
            } else if c == ')' || c == ']' || c == '}' {
                if depth > 0 {
                    raw_end(s, i + 1, (depth - 1) as nat, None)
                } else if c == '}' {
                    None
                } else {
                    Some(i)
                }
            } else if c == ',' && depth == 0 {
                Some(i)
            } else {
                raw_end(s, i + 1, depth, None)
            },
        }
    }
}

/// Whether the next non-blank character after `e` ends a value.
pub open spec fn delim_after(s: Seq<char>, e: int) -> bool {
    let j = skip(s, e);
    0 <= j < s.len() && is_delim(s[j])
}

/// An unstructured value from `i`, and where it ends.
pub open spec fn parse_other(s: Seq<char>, i: int) -> Option<(ValueModel, int)> {
    match raw_end(s, i, 0, None) {
        Some(e) => if e > i {
            Some((ValueModel::Other(s.subrange(i, e)), e))
        } else {
            None
        },
        None => None,
    }
}

/// The value at `i`, and where it ends.
pub open spec fn parse_value(s: Seq<char>, i: int) -> Option<(ValueModel, int)>
    decreases s.len() - i, 0int,
{
    if i < 0 || i >= s.len() {
        None
    } else if is_quote(s[i]) {
        match quote_close(s, i + 1, s[i]) {
            Some(e) => if delim_after(s, e + 1) {
                Some((ValueModel::Text(s.subrange(i + 1, e)), e + 1))
            } else {
                parse_other(s, i)
            },
            None => None,
        }
    } else if s[i] == '[' {
        let k = skip(s, i + 1);
        if k <= i || k > s.len() {
            None
        } else {
            match parse_items(s, k, Seq::empty()) {
                Some((items, e)) => if delim_after(s, e) {
                    Some((ValueModel::List(items), e))
                } else {
                    parse_other(s, i)
                },
                None => parse_other(s, i),
            }
        }
    } else {
        parse_other(s, i)
    }
}

/// The position after an optional comma at the first non-blank character after `e`.
pub open spec fn after_comma(s: Seq<char>, e: int) -> int {
    let j = skip(s, e);
    if 0 <= j < s.len() && s[j] == ',' {
        skip(s, j + 1)
    } else {
        j
    }
}

/// The string items of a list from `i` up to its closing `]`, after those in `acc`, and
/// the position after the `]`.
pub open spec fn parse_items(s: Seq<char>, i: int, acc: Seq<Seq<char>>) -> Option<(Seq<Seq<char>>, int)>
    decreases s.len() - i, 1int,
{
    if i < 0 || i >= s.len() {
        None
    } else if s[i] == ']' {
        Some((acc, i + 1))
    } else {
        match parse_value(s, i) {
            Some((v, e)) => {
                let j = after_comma(s, e);
                if j <= i || j > s.len() {
                    None
                } else {
                    parse_items(
                        s,
                        j,
                        match v {
                            ValueModel::Text(t) => acc.push(t),
                            _ => acc,
                        },
                    )
                }
            },
            None => None,
        }
    }
}

/// The name of the argument at `i` and where its value starts: an identifier followed by
/// a single `=`, or an empty name for a positional argument.
pub open spec fn arg_name(s: Seq<char>, i: int) -> (Seq<char>, int) {
    if 0 <= i < s.len() && is_ident_start(s[i]) {
        let e = ident_end(s, i);
        let j = skip(s, e);
        if 0 <= j < s.len() && s[j] == '=' && !(j + 1 < s.len() && s[j + 1] == '=') {
            (s.subrange(i, e), skip(s, j + 1))
        } else {
            (Seq::empty(), i)
        }
    } else {
        (Seq::empty(), i)
    }
}

/// The arguments of a call from `i` up to its closing `)`, after those in `acc`, and the
/// position after the `)`.
pub open spec fn parse_args(
    s: Seq<char>,
    i: int,
    acc: Seq<(Seq<char>, ValueModel)>,
) -> Option<(Seq<(Seq<char>, ValueModel)>, int)>
    decreases s.len() - i,
{
    if i < 0 || i >= s.len() {
        None
    } else if s[i] == ')' {
        Some((acc, i + 1))
    } else {
        let (name, start) = arg_name(s, i);
        match parse_value(s, start) {
            Some((v, e)) => {
                let j = after_comma(s, e);
                if j <= i || j > s.len() {
                    None
                } else {
                    parse_args(s, j, acc.push((name, v)))
                }
            },
            None => None,
        }
    }
}

/// The rule call at `i`, and where it ends.
pub open spec fn parse_call(s: Seq<char>, i: int) -> Option<(CallModel, int)> {
    if 0 <= i < s.len() && is_ident_start(s[i]) {
        let e = ident_end(s, i);
        let j = skip(s, e);
        if 0 <= j < s.len() && s[j] == '(' {
            match parse_args(s, skip(s, j + 1), Seq::empty()) {
                Some((args, k)) => Some(((s.subrange(i, e), args), k)),
                None => None,
            }
        } else {
            None
        }
    } else {
        None
    }
}

/// The rule calls from `i` to the end of the text, after those in `acc`.
pub open spec fn parse_calls(s: Seq<char>, i: int, acc: Seq<CallModel>) -> Option<Seq<CallModel>>
    decreases s.len() - i,
{
    if i < 0 || i >= s.len() {
        Some(acc)
    } else {
        match parse_call(s, i) {
            Some((c, e)) => {
                let j = skip(s, e);
                if j <= i || j > s.len() {
                    None
                } else {
                    parse_calls(s, j, acc.push(c))
                }
            },
            None => None,
        }
    }
}

/// The rule calls of a build file, or `None` when it is malformed.
pub open spec fn parse_file(s: Seq<char>) -> Option<Seq<CallModel>> {
    parse_calls(s, skip(s, 0), Seq::empty())
}

fn is_space_char(c: char) -> (r: bool)
    ensures
        r == is_space(c),
{
    c == ' ' || c == '\t' || c == '\n' || c == '\r'
}

fn is_ident_start_char(c: char) -> (r: bool)
    ensures
        r == is_ident_start(c),
{
    let u = c as u32;
    (0x61 <= u && u <= 0x7a) || (0x41 <= u && u <= 0x5a) || c == '_'
}

fn is_ident_char_char(c: char) -> (r: bool)
    ensures
        r == is_ident_char(c),
{
    let u = c as u32;
    is_ident_start_char(c) || (0x30 <= u && u <= 0x39) || c == '.'
}

fn skip_at(cs: &Vec<char>, i: usize) -> (r: usize)
    requires
        i <= cs@.len(),
    ensures
        r == skip(cs@, i as int),
        i <= r <= cs@.len(),
{
    let mut j = i;
    let mut in_comment = false;
    while j < cs.len()
        invariant
            i <= j <= cs@.len(),
            skip_from(cs@, j as int, in_comment) == skip(cs@, i as int),
        decreases cs@.len() - j,
    {
        let c = cs[j];
        if in_comment {
            in_comment = c != '\n';
        } else if is_space_char(c) {
        } else if c == '#' {
            in_comment = true;
        } else {
            return j;
        }
        j += 1;
    }
    j
}

fn ident_end_at(cs: &Vec<char>, i: usize) -> (r: usize)
    requires
        i <= cs@.len(),
    ensures
        r == ident_end(cs@, i as int),
        i <= r <= cs@.len(),
{
    let mut j = i;
    while j < cs.len() && is_ident_char_char(cs[j])
        invariant
            i <= j <= cs@.len(),
            ident_end(cs@, j as int) == ident_end(cs@, i as int),
        decreases cs@.len() - j,
    {
        j += 1;
    }
    j
}

fn quote_close_at(cs: &Vec<char>, i: usize, q: char) -> (r: Option<usize>)
    requires
        i <= cs@.len(),
    ensures
        r is None <==> quote_close(cs@, i as int, q) is None,
        r matches Some(e) ==> quote_close(cs@, i as int, q) == Some(e as int) && i <= e < cs@.len(),
{
    let mut j = i;
    while j < cs.len()
        invariant
            i <= j <= cs@.len(),
            quote_close(cs@, j as int, q) == quote_close(cs@, i as int, q),
        decreases cs@.len() - j,
    {
        if cs[j] == q {
            return Some(j);
        }
        j += 1;
    }
    None
}

fn raw_end_at(cs: &Vec<char>, i: usize) -> (r: Option<usize>)
    requires
        i <= cs@.len(),
    ensures
        r is None <==> raw_end(cs@, i as int, 0, None) is None,
        r matches Some(e) ==> raw_end(cs@, i as int, 0, None) == Some(e as int) && i <= e < cs@.len(),
{
    let mut j = i;
    let mut depth: usize = 0;
    let mut quote: Option<char> = None;
    while j < cs.len()
        invariant
            i <= j <= cs@.len(),
            depth <= j,
            raw_end(cs@, j as int, depth as nat, quote) == raw_end(cs@, i as int, 0, None),
        decreases cs@.len() - j,
    {
        let c = cs[j];
        match quote {
            Some(q) => {
                if c == q {
                    quote = None;
                }
            },
            None => {
                if c == '"' || c == '\'' {
                    quote = Some(c);
                } else if c == '(' || c == '[' || c == '{' {
                    depth += 1;
                } else if c == ')' || c == ']' || c == '}' {
                    if depth > 0 {
                        depth -= 1;
                    } else if c == '}' {
                        return None;
                    } else {
                        return Some(j);
                    }
                } else if c == ',' && depth == 0 {
                    return Some(j);
                }
            },
        }
        j += 1;
    }
    None
}

fn delim_after_at(cs: &Vec<char>, e: usize) -> (r: bool)
    requires
        e <= cs@.len(),
    ensures
        r == delim_after(cs@, e as int),
{
    let j = skip_at(cs, e);
    j < cs.len() && (cs[j] == ',' || cs[j] == ')' || cs[j] == ']')
}

fn after_comma_at(cs: &Vec<char>, e: usize) -> (r: usize)
    requires
        e <= cs@.len(),
    ensures
        r == after_comma(cs@, e as int),
        r <= cs@.len(),
{
    let j = skip_at(cs, e);
    if j < cs.len() && cs[j] == ',' {
        skip_at(cs, j + 1)
    } else {
        j
    }
}

fn parse_other_at(cs: &Vec<char>, i: usize) -> (r: Option<(AttrValue, usize)>)
    requires
        i <= cs@.len(),
    ensures
        r is None <==> parse_other(cs@, i as int) is None,
        r matches Some((v, e)) ==> parse_other(cs@, i as int) == Some((v@, e as int)) && e <= cs@.len(),
{
    match raw_end_at(cs, i) {
        Some(e) => if e > i {
            Some((AttrValue::Other(string_of(cs, i, e)), e))
        } else {
            None
        },
        None => None,
    }
}

fn parse_value_at(cs: &Vec<char>, i: usize) -> (r: Option<(AttrValue, usize)>)
    requires
        i <= cs@.len(),
    ensures
        r is None <==> parse_value(cs@, i as int) is None,
        r matches Some((v, e)) ==> parse_value(cs@, i as int) == Some((v@, e as int)) && e <= cs@.len(),
    decreases cs@.len() - i, 0int,
{
    if i >= cs.len() {
        return None;
    }
    let c = cs[i];
    if c == '"' || c == '\'' {
        match quote_close_at(cs, i + 1, c) {
            Some(e) => if delim_after_at(cs, e + 1) {
                Some((AttrValue::Text(string_of(cs, i + 1, e)), e + 1))
            } else {
                parse_other_at(cs, i)
            },
            None => None,
        }
    } else if c == '[' {
        let k = skip_at(cs, i + 1);
        match parse_items_at(cs, k) {
            Some((items, e)) => if delim_after_at(cs, e) {
                Some((AttrValue::List(items), e))
            } else {
                parse_other_at(cs, i)
            },
            None => parse_other_at(cs, i),
        }
    } else {
        parse_other_at(cs, i)
    }
}

fn parse_items_at(cs: &Vec<char>, i: usize) -> (r: Option<(Vec<String>, usize)>)
    requires
        0 < i <= cs@.len(),
    ensures
        r is None <==> parse_items(cs@, i as int, Seq::empty()) is None,
        r matches Some((v, e)) ==> parse_items(cs@, i as int, Seq::empty()) == Some((texts(v@), e as int))
            && e <= cs@.len(),
    decreases cs@.len() - i, 1int,
{
    let mut acc: Vec<String> = Vec::new();
    let mut j = i;
    assert(texts(acc@) =~= Seq::<Seq<char>>::empty());
    loop
        invariant
            i <= j <= cs@.len(),
            parse_items(cs@, j as int, texts(acc@)) == parse_items(cs@, i as int, Seq::empty()),
        decreases cs@.len() - j,
    {
        if j >= cs.len() {
            return None;
        }
        if cs[j] == ']' {
            return Some((acc, j + 1));
        }
        match parse_value_at(cs, j) {
            Some((v, e)) => {
                let k = after_comma_at(cs, e);
                if k <= j {
                    return None;
                }
                let ghost before = texts(acc@);
                let ghost vm = v@;
                match v {
                    AttrValue::Text(t) => {
                        acc.push(t);
                    },
                    _ => {},
                }
                assert(texts(acc@) =~= (match vm {
                    ValueModel::Text(t) => before.push(t),
                    _ => before,
                }));
                j = k;
            },
            None => {
                return None;
            },
        }
    }
}

fn arg_name_at(cs: &Vec<char>, i: usize) -> (r: (String, usize))
    requires
        i <= cs@.len(),
    ensures
        (r.0@, r.1 as int) == arg_name(cs@, i as int),
        i <= r.1 <= cs@.len(),
{
    if i < cs.len() && is_ident_start_char(cs[i]) {
        let e = ident_end_at(cs, i);
        let j = skip_at(cs, e);
        if j < cs.len() && cs[j] == '=' && !(j + 1 < cs.len() && cs[j + 1] == '=') {
            return (string_of(cs, i, e), skip_at(cs, j + 1));
        }
    }
    (string_of(cs, i, i), i)
}

fn parse_args_at(cs: &Vec<char>, i: usize) -> (r: Option<(Vec<(String, AttrValue)>, usize)>)
    requires
        i <= cs@.len(),
    ensures
        r is None <==> parse_args(cs@, i as int, Seq::empty()) is None,
        r matches Some((v, e)) ==> parse_args(cs@, i as int, Seq::empty()) == Some((args_view(v@), e as int))
            && e <= cs@.len(),
{
    let mut acc: Vec<(String, AttrValue)> = Vec::new();
    let mut j = i;
    assert(args_view(acc@) =~= Seq::<(Seq<char>, ValueModel)>::empty());
    loop
        invariant
            i <= j <= cs@.len(),
            parse_args(cs@, j as int, args_view(acc@)) == parse_args(cs@, i as int, Seq::empty()),
        decreases cs@.len() - j,
    {
        if j >= cs.len() {
            return None;
        }
        if cs[j] == ')' {
            return Some((acc, j + 1));
        }
        let (name, start) = arg_name_at(cs, j);
        match parse_value_at(cs, start) {
            Some((v, e)) => {
                let k = after_comma_at(cs, e);
                if k <= j {
                    return None;
                }
                let ghost before = args_view(acc@);
                let ghost item = (name@, v@);
                acc.push((name, v));
                assert(args_view(acc@) =~= before.push(item));
                j = k;
            },
            None => {
                return None;
            },
        }
    }
}

fn parse_call_at(cs: &Vec<char>, i: usize) -> (r: Option<(RuleCall, usize)>)
    requires
        i <= cs@.len(),
    ensures
        r is None <==> parse_call(cs@, i as int) is None,
        r matches Some((c, e)) ==> parse_call(cs@, i as int) == Some((c@, e as int)) && e <= cs@.len(),
{
    if i < cs.len() && is_ident_start_char(cs[i]) {
        let e = ident_end_at(cs, i);
        let j = skip_at(cs, e);
        if j < cs.len() && cs[j] == '(' {
            let k = skip_at(cs, j + 1);
            match parse_args_at(cs, k) {
                Some((args, end)) => {
                    let call = RuleCall { kind: string_of(cs, i, e), args };
                    return Some((call, end));
                },
                None => {
                    return None;
                },
            }
        }
    }
    None
}

/// The rule calls of a build file's text, in order; `None` when the text is not a
/// sequence of rule calls.
pub fn parse_build_text(text: &str) -> (r: Option<Vec<RuleCall>>)
    ensures
        r is None <==> parse_file(text@) is None,
        r matches Some(v) ==> parse_file(text@) == Some(calls_view(v@)),
{
    let cs = chars_of(text);
    let mut acc: Vec<RuleCall> = Vec::new();
    let mut j = skip_at(&cs, 0);
    assert(calls_view(acc@) =~= Seq::<CallModel>::empty());
    loop
        invariant
            j <= cs@.len(),
            cs@ == text@,
            parse_calls(cs@, j as int, calls_view(acc@)) == parse_file(text@),
        decreases cs@.len() - j,
    {
        if j >= cs.len() {
            return Some(acc);
        }
        match parse_call_at(&cs, j) {
            Some((c, e)) => {
                let k = skip_at(&cs, e);
                if k <= j {
                    return None;
                }
                let ghost before = calls_view(acc@);
                let ghost item = c@;
                acc.push(c);
                assert(calls_view(acc@) =~= before.push(item));
                j = k;
            },
            None => {
                return None;
            },
        }
    }
}

} // verus!

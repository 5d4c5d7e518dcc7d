//! Finding the target label under the cursor in a line of text.
use vstd::prelude::*;
use crate::graph::{declared_in, is_listing, BazelTarget, BuildGraph};
use crate::syntax::quote_close;
use crate::text::{chars_of, string_of};

verus! {

/// What the matches of `pattern` in `text` give for capture group `group`: for each
/// successive match, the byte span and text of the group, or `None` where the group took
/// no part.
pub uninterp spec fn regex_group_spans(pattern: Seq<char>, group: nat, text: Seq<char>) -> Seq<
    Option<(usize, usize, Seq<char>)>,
>;

/// A span of a match: start and end byte offsets, and the matched text.
pub type GroupSpan = Option<(usize, usize, String)>;

/// The model of a list of spans.
pub open spec fn spans_view(v: Seq<GroupSpan>) -> Seq<Option<(usize, usize, Seq<char>)>> {
    v.map_values(
        |m: GroupSpan|
            match m {
                Some((a, b, t)) => Some((a, b, t@)),
                None => None,
            },
    )
}

/// Relies on `regex::Regex::new` and `Regex::captures_iter`: when the pattern compiles (as
/// the two label patterns of this module do), the span and text of capture group `group`
/// of each successive match in `text`.
#[verifier::external_body]
pub(crate) fn capture_spans(pattern: &str, group: usize, text: &str) -> (r: Option<Vec<GroupSpan>>)
    ensures
        pattern@ == build_label_pattern() || pattern@ == label_reference_pattern() ==> r is Some,
        r matches Some(v) ==> spans_view(v@) == regex_group_spans(pattern@, group as nat, text@),
{
    let re = regex::Regex::new(pattern).ok()?;
    Some(
        re.captures_iter(text).map(
            |c| c.get(group).map(|m| (m.start(), m.end(), m.as_str().to_string())),
        ).collect(),
    )
}

/// The label-shaped tokens of a build file line: `//pkg:name` or `:name`, perhaps quoted.
pub open spec fn build_label_pattern() -> Seq<char> {
    "[\\x22\\x27]?(//[^\\x22\\x27\\s]+|:[^\\x22\\x27\\s]+)[\\x22\\x27]?"@
}

/// The absolute labels of any source line.
pub open spec fn label_reference_pattern() -> Seq<char> {
    "//[a-zA-Z0-9_/:-]+"@
}

/// The label that the first token containing `column` names, from match `i` on: an
/// absolute one as written, a relative `:name` resolved in `package`. A relative token
/// is passed over when no package is known.
pub open spec fn token_label_from(
    ms: Seq<Option<(usize, usize, Seq<char>)>>,
    i: int,
    column: int,
    package: Option<Seq<char>>,
) -> Option<Seq<char>>
    decreases ms.len() - i,
{
    if i < 0 || i >= ms.len() {
        None
    } else {
        match ms[i] {
            Some((a, b, t)) => if a <= column <= b {
                if t.len() > 0 && t[0] == ':' {
                    match package {
                        Some(p) => Some(seq!['/', '/'] + p + t),
                        None => token_label_from(ms, i + 1, column, package),
                    }
                } else {
                    Some(t)
                }
            } else {
                token_label_from(ms, i + 1, column, package)
            },
            None => token_label_from(ms, i + 1, column, package),
        }
    }
}

/// The text of the line from `i` to the next line break, without a trailing `\r`.
pub open spec fn line_text(s: Seq<char>, i: int) -> Seq<char> {
    let e = match quote_close(s, i, '\n') {
        Some(e) => e,
        None => s.len() as int,
    };
    let l = s.subrange(i, e);
    if l.len() > 0 && l.last() == '\r' {
        l.drop_last()
    } else {
        l
    }
}

/// Line `n` of the text from position `i`, counting from zero.
pub open spec fn nth_line(s: Seq<char>, n: nat, i: int) -> Option<Seq<char>>
    decreases n,
{
    if n == 0 {
        if 0 <= i <= s.len() {
            Some(line_text(s, i))
        } else {
            None
        }
    } else {
        match quote_close(s, i, '\n') {
            Some(e) => nth_line(s, (n - 1) as nat, e + 1),
            None => None,
        }
    }
}

/// The label that the token under `column` names, given the spans of the tokens of the
/// line.
pub fn token_label(spans: &Vec<GroupSpan>, column: u32, package: Option<&str>) -> (r: Option<String>)
    ensures
        r matches Some(s) ==> token_label_from(spans_view(spans@), 0, column as int, opt_view(package))
            == Some(s@),
        r is None ==> token_label_from(spans_view(spans@), 0, column as int, opt_view(package)) is None,
{
    proof {
        reveal_strlit("//");
    }
    let ghost ms = spans_view(spans@);
    let mut i: usize = 0;
    while i < spans.len()
        invariant
            i <= spans@.len(),
            ms == spans_view(spans@),
            token_label_from(ms, i as int, column as int, opt_view(package))
                == token_label_from(ms, 0, column as int, opt_view(package)),
        decreases spans@.len() - i,
    {
        match &spans[i] {
            Some((a, b, t)) => {
                assert(ms[i as int] == Some((*a, *b, t@)));
                if *a as u64 <= column as u64 && column as u64 <= *b as u64 {
                    let cs = chars_of(t.as_str());
                    if cs.len() > 0 && cs[0] == ':' {
                        match package {
                            Some(p) => {
                                proof {
                                    reveal_strlit("//");
                                }
                                let mut r = String::from_str("//");
                                r.append(p);
                                r.append(t.as_str());
                                assert(r@ =~= seq!['/', '/'] + p@ + t@);
                                return Some(r);
                            },
                            None => {},
                        }
                    } else {
                        return Some(t.clone());
                    }
                }
            },
            None => {},
        }
        i += 1;
    }
    None
}

/// The optional text's model.
pub open spec fn opt_view(p: Option<&str>) -> Option<Seq<char>> {
    match p {
        Some(s) => Some(s@),
        None => None,
    }
}

/// Line `n` of `text`, counting from zero.
pub fn line_of(text: &str, n: u32) -> (r: Option<String>)
    ensures
        r matches Some(l) ==> nth_line(text@, n as nat, 0) == Some(l@),
        r is None ==> nth_line(text@, n as nat, 0) is None,
{
    let cs = chars_of(text);
    let mut i: usize = 0;
    let mut k: u32 = n;
    while k > 0
        invariant
            i <= cs@.len(),
            cs@ == text@,
            nth_line(cs@, k as nat, i as int) == nth_line(text@, n as nat, 0),
        decreases k,
    {
        let mut j = i;
        while j < cs.len() && cs[j] != '\n'
            invariant
                i <= j <= cs@.len(),
                quote_close(cs@, j as int, '\n') == quote_close(cs@, i as int, '\n'),
            decreases cs@.len() - j,
        {
            j += 1;
        }
        if j == cs.len() {
            return None;
        }
        i = j + 1;
        k -= 1;
    }
    let mut e = i;
    while e < cs.len() && cs[e] != '\n'
        invariant
            i <= e <= cs@.len(),
            quote_close(cs@, e as int, '\n') == quote_close(cs@, i as int, '\n'),
        decreases cs@.len() - e,
    {
        e += 1;
    }
    if e > i && cs[e - 1] == '\r' {
        assert(cs@.subrange(i as int, e as int).drop_last() =~= cs@.subrange(i as int, e - 1));
        Some(string_of(&cs, i, e - 1))
    } else {
        Some(string_of(&cs, i, e))
    }
}

/// The label under the cursor when the line holds none: the first listed target's.
pub open spec fn fallback_label(ts: Seq<BazelTarget>) -> Option<Seq<char>> {
    if ts.len() > 0 {
        Some(ts[0].label@)
    } else {
        None
    }
}

/// The package of the first listed target, in which relative labels are resolved.
pub open spec fn first_package(ts: Seq<BazelTarget>) -> Option<Seq<char>> {
    if ts.len() > 0 {
        Some(ts[0].package@)
    } else {
        None
    }
}

/// The label at a cursor position, given the tokens found on its line.
pub open spec fn label_at(
    ts: Seq<BazelTarget>,
    spans: Seq<Option<(usize, usize, Seq<char>)>>,
    column: int,
) -> Option<Seq<char>> {
    match token_label_from(spans, 0, column, first_package(ts)) {
        Some(l) => Some(l),
        None => fallback_label(ts),
    }
}

impl BuildGraph {
    /// The target label at (`line`, `column`) of build file `file` whose text is `text`: the
    /// label-shaped token under the cursor, a relative one resolved in the package of the
    /// file's first listed target; else that target's label.
    pub fn get_target_at_position(&self, file: &str, text: &str, line: u32, column: u32) -> (r: Option<String>)
        requires
            self.wf(),
        ensures
            exists|ts: Seq<BazelTarget>|
                is_listing(declared_in(self.target_map(), file@), ts) && match nth_line(text@, line as nat, 0) {
                    None => opt_string_view(r) == fallback_label(ts),
                    Some(l) => opt_string_view(r) == label_at(
                        ts,
                        regex_group_spans(build_label_pattern(), 1, l),
                        column as int,
                    ),
                },
    {
        let targets = self.get_targets_in_file(file);
        let fallback = if targets.len() > 0 {
            Some(targets[0].label.clone())
        } else {
            None
        };
        let package = if targets.len() > 0 {
            Some(targets[0].package.as_str())
        } else {
            None
        };
        match line_of(text, line) {
            Some(l) => {
                match capture_spans("[\\x22\\x27]?(//[^\\x22\\x27\\s]+|:[^\\x22\\x27\\s]+)[\\x22\\x27]?", 1, l.as_str()) {
                    Some(spans) => {
                        match token_label(&spans, column, package) {
                            Some(found) => Some(found),
                            None => fallback,
                        }
                    },
                    None => None,
                }
            },
            None => fallback,
        }
    }
}

/// The optional string's model.
pub open spec fn opt_string_view(r: Option<String>) -> Option<Seq<char>> {
    match r {
        Some(s) => Some(s@),
        None => None,
    }
}

} // verus!

//! Target labels: `//package:name`, with `//:name` for the root package.
use vstd::prelude::*;
use crate::text::{chars_of, string_of};

verus! {

/// The text of the label for target `name` in `package`.
pub open spec fn label_text(package: Seq<char>, name: Seq<char>) -> Seq<char> {
    seq!['/', '/'] + package + seq![':'] + name
}

/// Whether `s` holds no colon.
pub open spec fn no_colon(s: Seq<char>) -> bool {
    forall|i: int| 0 <= i < s.len() ==> s[i] != ':'
}

/// Whether `s` is a well-formed label: `//`, a package and a name, neither holding a colon.
pub open spec fn is_label(s: Seq<char>) -> bool {
    exists|p: Seq<char>, n: Seq<char>| no_colon(p) && no_colon(n) && s == label_text(p, n)
}

/// The package of a well-formed label.
pub open spec fn label_package(s: Seq<char>) -> Seq<char> {
    (choose|p: Seq<char>, n: Seq<char>| no_colon(p) && no_colon(n) && s == label_text(p, n)).0
}

/// The name of a well-formed label.
pub open spec fn label_name(s: Seq<char>) -> Seq<char> {
    (choose|p: Seq<char>, n: Seq<char>| no_colon(p) && no_colon(n) && s == label_text(p, n)).1
}

proof fn lemma_label_text_shape(p: Seq<char>, n: Seq<char>)
    ensures
        label_text(p, n).len() == p.len() + n.len() + 3,
        label_text(p, n)[0] == '/',
        label_text(p, n)[1] == '/',
        label_text(p, n)[p.len() as int + 2] == ':',
        forall|j: int| 0 <= j < p.len() ==> label_text(p, n)[j + 2] == p[j],
        forall|j: int| 0 <= j < n.len() ==> label_text(p, n)[p.len() as int + 3 + j] == n[j],
{
    let s = label_text(p, n);
    assert forall|j: int| 0 <= j < p.len() implies s[j + 2] == p[j] by {
        assert((seq!['/', '/'] + p)[j + 2] == p[j]);
    }
}

/// A label's package and name are determined by its text.
pub proof fn lemma_label_text_injective(pa: Seq<char>, na: Seq<char>, pb: Seq<char>, nb: Seq<char>)
    requires
        no_colon(pa),
        no_colon(pb),
        label_text(pa, na) == label_text(pb, nb),
    ensures
        pa == pb,
        na == nb,
{
    lemma_label_text_shape(pa, na);
    lemma_label_text_shape(pb, nb);
    let s = label_text(pa, na);
    if pa.len() < pb.len() {
        assert(s[pa.len() as int + 2] == ':');
        assert(pb[pa.len() as int] == s[pa.len() as int + 2]);
    } else if pb.len() < pa.len() {
        assert(s[pb.len() as int + 2] == ':');
        assert(pa[pb.len() as int] == s[pb.len() as int + 2]);
    }
    assert(pa =~= pb);
    assert(na =~= nb);
}

/// The label of target `name` in `package`.
pub fn make_label(package: &str, name: &str) -> (r: String)
    ensures
        r@ == label_text(package@, name@),
{
    proof {
        reveal_strlit("//");
        reveal_strlit(":");
    }
    let mut r = String::from_str("//");
    r.append(package);
    r.append(":");
    r.append(name);
    r
}

/// Splits a label into its package and name; `None` when `label` is not well formed.
pub fn split_label(label: &str) -> (r: Option<(String, String)>)
    ensures
        r.is_some() <==> is_label(label@),
        r matches Some((p, n)) ==> p@ == label_package(label@) && n@ == label_name(label@),
{
    let cs = chars_of(label);
    let len = cs.len();
    if len < 2 || cs[0] != '/' || cs[1] != '/' {
        proof {
            if is_label(label@) {
                let (p, n) = choose|p: Seq<char>, n: Seq<char>|
                    no_colon(p) && no_colon(n) && label@ == label_text(p, n);
                lemma_label_text_shape(p, n);
            }
        }
        return None;
    }
    let mut c: usize = 2;
    while c < len && cs[c] != ':'
        invariant
            2 <= c <= len,
            len == cs@.len(),
            forall|j: int| 2 <= j < c ==> cs@[j] != ':',
        decreases len - c,
    {
        c += 1;
    }
    if c == len {
        proof {
            if is_label(label@) {
                let (p, n) = choose|p: Seq<char>, n: Seq<char>|
                    no_colon(p) && no_colon(n) && label@ == label_text(p, n);
                lemma_label_text_shape(p, n);
                assert(cs@[p.len() as int + 2] == ':');
            }
        }
        return None;
    }
    let mut d: usize = c + 1;
    while d < len && cs[d] != ':'
        invariant
            c < d <= len,
            len == cs@.len(),
            forall|j: int| c < j < d ==> cs@[j] != ':',
        decreases len - d,
    {
        d += 1;
    }
    if d < len {
        proof {
            if is_label(label@) {
                let (p, n) = choose|p: Seq<char>, n: Seq<char>|
                    no_colon(p) && no_colon(n) && label@ == label_text(p, n);
                lemma_label_text_shape(p, n);
                if c < p.len() as int + 2 {
                    assert(p[c as int - 2] == cs@[c as int]);
                } else if c > p.len() as int + 2 {
                    assert(n[c - 3 - p.len() as int] == cs@[c as int]);
                } else {
                    assert(n[d - 3 - p.len() as int] == cs@[d as int]);
                }
            }
        }
        return None;
    }
    let package = string_of(&cs, 2, c);
    let name = string_of(&cs, c + 1, len);
    assert(label@ =~= label_text(package@, name@));
    proof {
        let (p, n) = choose|p: Seq<char>, n: Seq<char>|
            no_colon(p) && no_colon(n) && label@ == label_text(p, n);
        lemma_label_text_injective(p, n, package@, name@);
    }
    Some((package, name))
}

/// Splitting a well-formed label into its package and name and joining them again gives
/// the label back; joining a package and a name that hold no colon and splitting the
/// result gives them back. The root package is the empty one.
pub proof fn lemma_label_round_trip(label: Seq<char>, package: Seq<char>, name: Seq<char>)
    ensures
        is_label(label) ==> label_text(label_package(label), label_name(label)) == label,
        no_colon(package) && no_colon(name) ==> is_label(label_text(package, name))
            && label_package(label_text(package, name)) == package
            && label_name(label_text(package, name)) == name,
{
    if no_colon(package) && no_colon(name) {
        let s = label_text(package, name);
        assert(is_label(s));
        let (p, n) = choose|p: Seq<char>, n: Seq<char>|
            no_colon(p) && no_colon(n) && s == label_text(p, n);
        lemma_label_text_injective(p, n, package, name);
    }
}

} // verus!

//! Reading the results of a build query: targets with their kind, inputs, outputs and
//! attributes.
use vstd::prelude::*;
use crate::syntax::copy_strings;
use crate::text::{str_equal, texts};

verus! {

/// What a query target is.
#[derive(Debug, Clone, Copy, PartialEq, Eq, Structural)]
pub enum Discriminator {
    Unknown,
    Rule,
    SourceFile,
    GeneratedFile,
    PackageGroup,
    EnvironmentGroup,
}

/// A decoded query result.
#[derive(Debug, Clone)]
pub struct QueryResultMessage {
    pub target: Vec<QueryTarget>,
}

/// A decoded query target.
#[derive(Debug, Clone)]
pub struct QueryTarget {
    pub discriminator: Discriminator,
    pub rule: Option<QueryRule>,
    pub source_file: Option<QuerySourceFile>,
}

/// A decoded rule.
#[derive(Debug, Clone)]
pub struct QueryRule {
    pub name: String,
    pub rule_class: String,
    pub attribute: Vec<QueryAttribute>,
    pub rule_input: Vec<String>,
    pub rule_output: Vec<String>,
}

/// A decoded source file.
#[derive(Debug, Clone)]
pub struct QuerySourceFile {
    pub name: String,
}

/// A decoded attribute.
#[derive(Debug, Clone)]
pub struct QueryAttribute {
    pub name: String,
    pub value: Option<AttributeValue>,
}

/// An attribute's value.
#[derive(Debug, Clone)]
pub enum AttributeValue {
    String(String),
    Int(i64),
    Bool(bool),
    StringList(Vec<String>),
}

/// The model of an attribute's value.
pub enum AttributeModel {
    String(Seq<char>),
    Int(i64),
    Bool(bool),
    StringList(Seq<Seq<char>>),
}

impl View for AttributeValue {
    type V = AttributeModel;

    open spec fn view(&self) -> AttributeModel {
        match self {
            AttributeValue::String(s) => AttributeModel::String(s@),
            AttributeValue::Int(i) => AttributeModel::Int(*i),
            AttributeValue::Bool(b) => AttributeModel::Bool(*b),
            AttributeValue::StringList(v) => AttributeModel::StringList(texts(v@)),
        }
    }
}

/// The targets of a query result.
#[derive(Debug, Clone)]
pub struct ParsedQueryResult {
    pub targets: Vec<ParsedTarget>,
}

/// One target of a query result.
#[derive(Debug, Clone)]
pub struct ParsedTarget {
    pub name: String,
    pub kind: String,
    pub inputs: Vec<String>,
    pub outputs: Vec<String>,
    pub attributes: Vec<(String, AttributeValue)>,
}

/// The models of named attribute values.
pub open spec fn attrs_view(v: Seq<(String, AttributeValue)>) -> Seq<(Seq<char>, AttributeModel)> {
    v.map_values(|a: (String, AttributeValue)| (a.0@, a.1@))
}

/// The attributes after setting `name` to `value`: in place where the name is present,
/// last otherwise.
pub open spec fn with_attr(
    attrs: Seq<(Seq<char>, AttributeModel)>,
    name: Seq<char>,
    value: AttributeModel,
) -> Seq<(Seq<char>, AttributeModel)> {
    if exists|i: int| 0 <= i < attrs.len() && attrs[i].0 == name {
        attrs.update(choose|i: int| 0 <= i < attrs.len() && attrs[i].0 == name, (name, value))
    } else {
        attrs.push((name, value))
    }
}

/// The attributes of a rule that carry a value, each name once, the last value winning.
pub open spec fn attrs_of(attrs: Seq<QueryAttribute>) -> Seq<(Seq<char>, AttributeModel)>
    decreases attrs.len(),
{
    if attrs.len() == 0 {
        Seq::empty()
    } else {
        let a = attrs.last();
        match a.value {
            Some(v) => with_attr(attrs_of(attrs.drop_last()), a.name@, v@),
            None => attrs_of(attrs.drop_last()),
        }
    }
}

/// No two attributes share a name.
pub open spec fn distinct_names(attrs: Seq<(Seq<char>, AttributeModel)>) -> bool {
    forall|i: int, j: int| 0 <= i < j < attrs.len() ==> #[trigger] attrs[i].0 != #[trigger] attrs[j].0
}

/// What a query target yields: a rule with its class, inputs, outputs and attributes; a
/// source file as its own single output; nothing for other kinds or a missing record.
pub open spec fn parsed_of(t: QueryTarget) -> Option<(Seq<char>, Seq<char>, Seq<Seq<char>>, Seq<Seq<char>>, Seq<(Seq<char>, AttributeModel)>)> {
    match t.discriminator {
        Discriminator::Rule => match t.rule {
            Some(r) => Some((r.name@, r.rule_class@, texts(r.rule_input@), texts(r.rule_output@), attrs_of(r.attribute@))),
            None => None,
        },
        Discriminator::SourceFile => match t.source_file {
            Some(f) => Some((f.name@, "source_file"@, Seq::empty(), seq![f.name@], Seq::empty())),
            None => None,
        },
        _ => None,
    }
}

/// The model of a parsed target.
pub open spec fn target_view(p: ParsedTarget) -> (Seq<char>, Seq<char>, Seq<Seq<char>>, Seq<Seq<char>>, Seq<(Seq<char>, AttributeModel)>) {
    (p.name@, p.kind@, texts(p.inputs@), texts(p.outputs@), attrs_view(p.attributes@))
}

/// What the targets of a query result yield, in order.
pub open spec fn parsed_all(ts: Seq<QueryTarget>) -> Seq<(Seq<char>, Seq<char>, Seq<Seq<char>>, Seq<Seq<char>>, Seq<(Seq<char>, AttributeModel)>)>
    decreases ts.len(),
{
    if ts.len() == 0 {
        Seq::empty()
    } else {
        parsed_all(ts.drop_last()) + match parsed_of(ts.last()) {
            Some(p) => seq![p],
            None => Seq::empty(),
        }
    }
}

/// Reads decoded query results.
pub struct QueryParser {}

impl QueryParser {
    pub fn new() -> (r: Self) {
        QueryParser {}
    }

    /// The targets of a decoded query result, in order.
    pub fn parse_proto_output(&self, result: QueryResultMessage) -> (r: ParsedQueryResult)
        ensures
            r.targets@.map_values(|p: ParsedTarget| target_view(p)) == parsed_all(result.target@),
    {
        let ghost all = result.target@;
        let mut rest = result.target;
        let mut targets: Vec<ParsedTarget> = Vec::new();
        let ghost mut k: int = 0;
        while rest.len() > 0
            invariant
                0 <= k <= all.len(),
                rest@ == all.skip(k),
                targets@.map_values(|p: ParsedTarget| target_view(p)) == parsed_all(all.take(k)),
            decreases rest@.len(),
        {
            let t = rest.remove(0);
            proof {
                assert(all.take(k + 1).drop_last() =~= all.take(k));
                assert(all.take(k + 1).last() == t);
                assert(all.skip(k + 1) =~= rest@);
            }
            let ghost before = targets@.map_values(|p: ParsedTarget| target_view(p));
            match self.parse_target(t) {
                Some(p) => {
                    let ghost pv = target_view(p);
                    targets.push(p);
                    assert(targets@.map_values(|p: ParsedTarget| target_view(p)) =~= before.push(pv));
                },
                None => {},
            }
            assert(targets@.map_values(|p: ParsedTarget| target_view(p)) =~= parsed_all(all.take(k + 1)));
            proof {
                k = k + 1;
            }
        }
        assert(all.take(k) =~= all);
        ParsedQueryResult { targets }
    }

    /// What one query target yields.
    pub fn parse_target(&self, target: QueryTarget) -> (r: Option<ParsedTarget>)
        ensures
            match r {
                Some(p) => parsed_of(target) == Some(target_view(p)),
                None => parsed_of(target) is None,
            },
    {
        match target.discriminator {
            Discriminator::Rule => match target.rule {
                Some(rule) => {
                    let attributes = self.collect_attributes(&rule.attribute);
                    Some(ParsedTarget {
                        name: rule.name,
                        kind: rule.rule_class,
                        inputs: rule.rule_input,
                        outputs: rule.rule_output,
                        attributes,
                    })
                },
                None => None,
            },
            Discriminator::SourceFile => match target.source_file {
                Some(source) => {
                    let mut outputs: Vec<String> = Vec::new();
                    outputs.push(source.name.clone());
                    let inputs: Vec<String> = Vec::new();
                    let attributes: Vec<(String, AttributeValue)> = Vec::new();
                    let p = ParsedTarget {
                        name: source.name,
                        kind: String::from_str("source_file"),
                        inputs,
                        outputs,
                        attributes,
                    };
                    assert(texts(p.inputs@) =~= Seq::<Seq<char>>::empty());
                    assert(texts(p.outputs@) =~= seq![p.name@]);
                    assert(attrs_view(p.attributes@) =~= Seq::<(Seq<char>, AttributeModel)>::empty());
                    Some(p)
                },
                None => None,
            },
            _ => None,
        }
    }

    /// The value of an attribute, if it carries one.
    pub fn parse_attribute_value(&self, attr: &QueryAttribute) -> (r: Option<AttributeValue>)
        ensures
            match r {
                Some(v) => attr.value matches Some(w) && v@ == w@,
                None => attr.value is None,
            },
    {
        match &attr.value {
            Some(AttributeValue::String(s)) => Some(AttributeValue::String(s.clone())),
            Some(AttributeValue::Int(i)) => Some(AttributeValue::Int(*i)),
            Some(AttributeValue::Bool(b)) => Some(AttributeValue::Bool(*b)),
            Some(AttributeValue::StringList(list)) => Some(AttributeValue::StringList(copy_strings(list))),
            None => None,
        }
    }

    /// The attributes that carry a value, each name once, the last value winning.
    fn collect_attributes(&self, attrs: &Vec<QueryAttribute>) -> (r: Vec<(String, AttributeValue)>)
        ensures
            attrs_view(r@) == attrs_of(attrs@),
    {
        let mut r: Vec<(String, AttributeValue)> = Vec::new();
        let mut i: usize = 0;
        assert(attrs_view(r@) =~= attrs_of(attrs@.take(0)));
        while i < attrs.len()
            invariant
                i <= attrs@.len(),
                attrs_view(r@) == attrs_of(attrs@.take(i as int)),
                distinct_names(attrs_view(r@)),
            decreases attrs@.len() - i,
        {
            let a = &attrs[i];
            assert(attrs@.take(i + 1).drop_last() =~= attrs@.take(i as int));
            assert(attrs@.take(i + 1).last() == *a);
            match self.parse_attribute_value(a) {
                Some(v) => {
                    set_attr(&mut r, a.name.clone(), v);
                },
                None => {},
            }
            i += 1;
        }
        assert(attrs@.take(i as int) =~= attrs@);
        r
    }
}

/// Sets `name` to `value` among attributes with distinct names.
fn set_attr(attrs: &mut Vec<(String, AttributeValue)>, name: String, value: AttributeValue)
    requires
        distinct_names(attrs_view(old(attrs)@)),
    ensures
        distinct_names(attrs_view(final(attrs)@)),
        attrs_view(final(attrs)@) == with_attr(attrs_view(old(attrs)@), name@, value@),
{
    let ghost av = attrs_view(attrs@);
    let mut i: usize = 0;
    while i < attrs.len()
        invariant
            i <= attrs@.len(),
            av == attrs_view(attrs@),
            av == attrs_view(old(attrs)@),
            distinct_names(av),
            forall|j: int| 0 <= j < i ==> av[j].0 != name@,
        decreases attrs@.len() - i,
    {
        if str_equal(attrs[i].0.as_str(), name.as_str()) {
            assert(av[i as int].0 == name@);
            let ghost k = choose|j: int| 0 <= j < av.len() && av[j].0 == name@;
            assert(k == i) by {
                if k < i {
                    assert(av[k].0 != name@);
                } else if k > i {
                    assert(av[i as int].0 != av[k].0);
                }
            }
            let ghost item = (name@, value@);
            assert(with_attr(av, name@, value@) == av.update(i as int, item));
            attrs.set(i, (name, value));
            assert(attrs_view(attrs@) =~= av.update(i as int, item));
            assert forall|a: int, b: int| 0 <= a < b < attrs_view(attrs@).len() implies
                #[trigger] attrs_view(attrs@)[a].0 != #[trigger] attrs_view(attrs@)[b].0 by {
                assert(attrs_view(attrs@)[a].0 == av[a].0);
                assert(attrs_view(attrs@)[b].0 == av[b].0);
            }
            return;
        }
        i += 1;
    }
    let ghost item = (name@, value@);
    attrs.push((name, value));
    assert(attrs_view(attrs@) =~= av.push(item));
    assert forall|a: int, b: int| 0 <= a < b < attrs_view(attrs@).len() implies
        #[trigger] attrs_view(attrs@)[a].0 != #[trigger] attrs_view(attrs@)[b].0 by {
        if b == av.len() {
            assert(av[a].0 != name@);
        } else {
            assert(av[a].0 != av[b].0);
        }
    }
}

} // verus!

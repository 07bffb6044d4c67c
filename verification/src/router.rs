//! The router: an ordered rule table over a registry of upstreams. The
//! first rule that matches a query and names an upstream decides where the
//! query goes.

use crate::error::{DrouteError, DrouteErrorView, ErrorView};
use crate::message::{lower, lowered, Message, QuestionView};
use crate::topology::{defines, Topology};
use crate::upstreams::Upstreams;
use vstd::prelude::*;

verus! {

/// The predicate of a rule.
#[derive(Debug, Clone, PartialEq, Eq)]
pub enum Matcher {
    /// Matches every query.
    Any,
    /// Matches the queries for this record type.
    QueryType(u16),
    /// Matches the queries for this domain and for the names under it,
    /// whatever the case of their letters.
    Domain(Vec<u8>),
}

/// A `Matcher` as contracts see it.
pub enum MatcherView {
    Any,
    QueryType(u16),
    Domain(Seq<u8>),
}

impl View for Matcher {
    type V = MatcherView;

    open spec fn view(&self) -> MatcherView {
        match *self {
            Matcher::Any => MatcherView::Any,
            Matcher::QueryType(t) => MatcherView::QueryType(t),
            Matcher::Domain(d) => MatcherView::Domain(d@),
        }
    }
}

/// One rule of the table.
#[derive(Debug, Clone, PartialEq, Eq)]
pub struct Rule {
    /// Which queries the rule is for.
    pub matcher: Matcher,
    /// The upstream that the rule sends its queries to; `None` where it
    /// leaves them to the rules after it.
    pub upstream: Option<String>,
}

/// A `Rule` as contracts see it.
pub struct RuleView {
    pub matcher: MatcherView,
    pub upstream: Option<Seq<char>>,
}

impl View for Rule {
    type V = RuleView;

    open spec fn view(&self) -> RuleView {
        RuleView {
            matcher: self.matcher@,
            upstream: match self.upstream {
                Some(l) => Some(l@),
                None => None,
            },
        }
    }
}

/// The rules of a table as contracts see them.
pub open spec fn rule_views(rules: Seq<Rule>) -> Seq<RuleView> {
    rules.map_values(|r: Rule| r@)
}

/// Whether `name` is `domain` or a name under it, whatever the case of the
/// letters. Every name is under the empty domain.
pub open spec fn in_domain(name: Seq<u8>, domain: Seq<u8>) -> bool {
    let n = lowered(name);
    let d = lowered(domain);
    &&& d.len() <= n.len()
    &&& n.skip(n.len() - d.len()) == d
    &&& (n.len() == d.len() || d.len() == 0 || n[n.len() - d.len() - 1] == 0x2e)
}

/// Whether `matcher` matches a query with question `q`.
pub open spec fn matches(matcher: MatcherView, q: QuestionView) -> bool {
    match matcher {
        MatcherView::Any => true,
        MatcherView::QueryType(t) => q.qtype == t,
        MatcherView::Domain(d) => in_domain(q.name, d),
    }
}

/// Whether `rule` decides where a query with question `q` goes.
pub open spec fn decides(rule: RuleView, q: QuestionView) -> bool {
    rule.upstream is Some && matches(rule.matcher, q)
}

/// Whether the `i`-th rule is the first that decides where `q` goes.
pub open spec fn first_deciding(rules: Seq<RuleView>, q: QuestionView, i: int) -> bool {
    &&& 0 <= i < rules.len()
    &&& decides(rules[i], q)
    &&& forall|j: int| 0 <= j < i ==> !decides(#[trigger] rules[j], q)
}

/// Whether the table ends in a default: a rule that matches every query
/// and names an upstream.
pub open spec fn has_default(rules: Seq<RuleView>) -> bool {
    rules.len() > 0 && rules.last().matcher == MatcherView::Any && rules.last().upstream is Some
}

/// Whether the `i`-th rule names an upstream that `t` does not define.
pub open spec fn dangling(rules: Seq<RuleView>, t: Topology, i: int) -> bool {
    rules[i].upstream matches Some(l) && !defines(t, l)
}

/// The tables that a router can be built from, over the upstreams of `t`.
pub open spec fn table_accepted(rules: Seq<RuleView>, t: Topology) -> bool {
    has_default(rules) && forall|i: int| 0 <= i < rules.len() ==> !#[trigger] dangling(rules, t, i)
}

/// The error that a table is refused with: a table without a default is
/// not valid, and otherwise the first rule that names an unknown upstream
/// is reported.
pub open spec fn table_rejects_with(rules: Seq<RuleView>, t: Topology, e: DrouteErrorView) -> bool {
    ||| !has_default(rules) && e == DrouteErrorView::InvalidRule
    ||| has_default(rules) && exists|i: int|
        0 <= i < rules.len() && #[trigger] dangling(rules, t, i) && (forall|j: int|
            0 <= j < i ==> !#[trigger] dangling(rules, t, j)) && e == DrouteErrorView::Upstream(
            ErrorView::MissingTag(rules[i].upstream->Some_0),
        )
}

/// The byte `b`, an ASCII letter in lower case.
fn lower_byte(b: u8) -> (l: u8)
    ensures
        l == lower(b),
{
    if 0x41 <= b && b <= 0x5a {
        b + 0x20
    } else {
        b
    }
}

/// Whether `name` is `domain` or a name under it.
pub fn name_in_domain(name: &Vec<u8>, domain: &Vec<u8>) -> (inside: bool)
    ensures
        inside == in_domain(name@, domain@),
{
    let ghost n = lowered(name@);
    let ghost d = lowered(domain@);
    if domain.len() > name.len() {
        return false;
    }
    let offset = name.len() - domain.len();
    let mut i: usize = 0;
    while i < domain.len()
        invariant
            i <= domain.len(),
            offset + domain.len() == name.len(),
            n == lowered(name@),
            d == lowered(domain@),
            forall|j: int| 0 <= j < i ==> n[offset + j] == #[trigger] d[j],
        decreases domain.len() - i,
    {
        if lower_byte(name[offset + i]) != lower_byte(domain[i]) {
            assert(n.skip(offset as int)[i as int] != d[i as int]);
            return false;
        }
        i += 1;
    }
    assert(n.skip(offset as int) =~= d);
    offset == 0 || domain.len() == 0 || name[offset - 1] == 0x2e
}

impl Matcher {
    /// Whether the matcher matches `query`.
    pub fn is_match(&self, query: &Message) -> (m: bool)
        ensures
            m == matches(self@, query@.question),
    {
        match self {
            Matcher::Any => true,
            Matcher::QueryType(t) => query.question.qtype == *t,
            Matcher::Domain(d) => name_in_domain(&query.question.name, d),
        }
    }
}

/// A rule table bound to the upstreams it routes to.
pub struct Router {
    rules: Vec<Rule>,
    upstreams: Upstreams,
}

impl Router {
    /// The rules, in their order.
    pub closed spec fn rules(&self) -> Seq<RuleView> {
        rule_views(self.rules@)
    }

    /// The upstreams that the rules route to.
    pub closed spec fn upstreams(&self) -> Upstreams {
        self.upstreams
    }

    /// The table ends in a default, and every upstream it names is one of
    /// a valid registry.
    pub open spec fn wf(&self) -> bool {
        self.upstreams().wf() && table_accepted(self.rules(), self.upstreams().topology())
    }

    /// Binds `rules` to `upstreams`. The table must end in a default, and
    /// every upstream that a rule names must be in the registry.
    pub fn new(rules: Vec<Rule>, upstreams: Upstreams) -> (r: Result<Router, DrouteError>)
        requires
            upstreams.wf(),
        ensures
            match r {
                Ok(router) => router.wf() && router.rules() == rule_views(rules@)
                    && router.upstreams() == upstreams,
                Err(e) => table_rejects_with(rule_views(rules@), upstreams.topology(), e@),
            },
    {
        let ghost table = rule_views(rules@);
        let ghost t = upstreams.topology();
        let n = rules.len();
        if n == 0 {
            return Err(DrouteError::InvalidRule);
        }
        assert(table.last() == rules@[n - 1]@);
        match &rules[n - 1] {
            Rule { matcher: Matcher::Any, upstream: Some(_) } => {},
            _ => {
                return Err(DrouteError::InvalidRule);
            },
        }
        let mut i: usize = 0;
        while i < n
            invariant
                i <= n,
                n == rules.len(),
                upstreams.wf(),
                table == rule_views(rules@),
                t == upstreams.topology(),
                has_default(table),
                forall|j: int| 0 <= j < i ==> !#[trigger] dangling(table, t, j),
            decreases n - i,
        {
            assert(table[i as int] == rules@[i as int]@);
            match &rules[i].upstream {
                Some(label) => {
                    match upstreams.has_tag(label) {
                        Ok(_) => {},
                        Err(e) => {
                            assert(table[i as int].upstream == Some(label@));
                            assert(dangling(table, t, i as int));
                            return Err(DrouteError::Upstream(e));
                        },
                    }
                },
                None => {},
            }
            i += 1;
        }
        Ok(Router { rules, upstreams })
    }

    /// The registry that the router routes to.
    pub fn registry(&self) -> (u: &Upstreams)
        ensures
            *u == self.upstreams(),
    {
        &self.upstreams
    }

    /// Where `query` goes: the first rule that matches the query and names
    /// an upstream, by its place in the table, and the label it names.
    pub fn select(&self, query: &Message) -> (chosen: (usize, &String))
        requires
            self.wf(),
        ensures
            first_deciding(self.rules(), query@.question, chosen.0 as int),
            self.rules()[chosen.0 as int].upstream == Some(chosen.1@),
            defines(self.upstreams().topology(), chosen.1@),
    {
        let ghost table = self.rules();
        let ghost q = query@.question;
        let mut i: usize = 0;
        loop
            invariant
                self.wf(),
                table == self.rules(),
                q == query@.question,
                i < self.rules.len(),
                forall|j: int| 0 <= j < i ==> !decides(#[trigger] table[j], q),
            decreases self.rules.len() - i,
        {
            let rule = &self.rules[i];
            assert(table[i as int] == rule@);
            if rule.matcher.is_match(query) {
                match &rule.upstream {
                    Some(label) => {
                        assert(first_deciding(table, q, i as int));
                        assert(!dangling(table, self.upstreams().topology(), i as int));
                        return (i, label);
                    },
                    None => {},
                }
            }
            assert(!decides(table[i as int], q));
            assert(decides(table.last(), q));
            i += 1;
        }
    }
}

} // verus!

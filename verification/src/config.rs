//! The configuration of the router as it is written down: named nets, named
//! servers, and what is imported from elsewhere.

use crate::builtin::net_config::NetConfig;
use crate::name_table::NameTable;
use crate::visitor::names_of;
use vstd::prelude::*;

verus! {

/// A value of the configuration that the router carries without reading it.
#[verifier::external_type_specification]
#[verifier::external_body]
pub struct ExValue(serde_json::Value);

/// `Value::clone` of serde_json gives a value that says the same.
pub assume_specification[ <serde_json::Value as Clone>::clone ](value: &serde_json::Value) -> (r: serde_json::Value)
    ensures
        r == *value,
;

/// `Value::eq` of serde_json says whether two values say the same.
pub assume_specification[ <serde_json::Value as PartialEq>::eq ](a: &serde_json::Value, b: &serde_json::Value) -> (r:
    bool)
    ensures
        r == (a == b),
;

/// The nets of a configuration, by name.
pub type ConfigNet = NameTable<Net>;

/// The servers of a configuration, by name.
pub type ConfigServer = NameTable<Server>;

/// The composites of a configuration, by name.
pub type ConfigComposite = NameTable<CompositeName>;

/// Any of the things that a name in the place of a net can stand for.
#[derive(Debug)]
pub enum AllNet {
    Net(Net),
    Composite(CompositeName),
    Local,
    Noop,
}

/// The whole configuration.
#[derive(Debug)]
pub struct Config {
    pub plugin_path: String,
    pub net: ConfigNet,
    pub server: ConfigServer,
    pub composite: ConfigComposite,
    pub import: Option<Vec<Import>>,
}

/// Something to import into the configuration.
#[derive(Clone, Debug)]
pub struct Import {
    pub name: Option<String>,
    pub format: String,
    pub path: String,
    pub rest: serde_json::Value,
}

/// A net that is composed of other nets.
#[derive(Clone, Debug)]
pub struct CompositeName {
    pub name: Option<String>,
    pub composite: CompositeDefaultType,
}

/// The ways of composing a net.
#[derive(Clone, Debug)]
pub enum Composite {
    Rule(CompositeRule),
}

/// A composite whose kind may be left out where it is written down: it then
/// reads as a rule.
#[derive(Clone, Debug)]
pub struct CompositeDefaultType(pub Composite);

impl Composite {
    pub fn into_default_type(self) -> (r: CompositeDefaultType)
        ensures
            r.0 == self,
    {
        CompositeDefaultType(self)
    }
}

/// The nets that a flow passes on its way out: one, or several in a row.
#[derive(Debug)]
pub enum Chain {
    One(String),
    Many(Vec<String>),
}

impl Chain {
    /// The names of the chain, in their order.
    pub open spec fn names(self) -> Seq<Seq<char>> {
        match self {
            Chain::One(s) => seq![s@],
            Chain::Many(v) => names_of(v@),
        }
    }

    /// The names of the chain as a list.
    pub fn to_vec(self) -> (r: Vec<String>)
        ensures
            names_of(r@) == self.names(),
    {
        match self {
            Chain::One(s) => {
                let mut v: Vec<String> = Vec::new();
                v.push(s);
                assert(names_of(v@) =~= seq![s@]);
                v
            },
            Chain::Many(v) => v,
        }
    }
}

/// A net as it is written down: its type, its chain, and its typed settings.
#[derive(Debug)]
pub struct Net {
    pub net_type: String,
    pub chain: Chain,
    pub opt: NetConfig,
}

impl Net {
    /// A net of the given type and settings behind the chain `local`.
    pub fn new_opt(net_type: String, opt: NetConfig) -> (r: Net)
        ensures
            r.net_type == net_type,
            r.opt == opt,
            r.chain.names() == seq!["local"@],
    {
        Net { net_type, chain: local_chain(), opt }
    }
}

/// A server as it is written down: its type, the net that it listens
/// through, the net that its flows go to, and the rest of its settings.
#[derive(Clone, Debug)]
pub struct Server {
    pub server_type: String,
    pub listen: String,
    pub net: String,
    pub rest: serde_json::Value,
}

/// One rule of a composite: its kind, the net that its flows go to, and the
/// rest of its settings.
#[derive(Clone, Debug)]
pub struct CompositeRuleItem {
    pub rule_type: String,
    pub target: String,
    pub rest: serde_json::Value,
}

/// A composite of rules.
#[derive(Clone, Debug)]
pub struct CompositeRule {
    pub rule: Vec<CompositeRuleItem>,
}

/// The targets of the rules.
pub open spec fn rule_targets(rule: Seq<CompositeRuleItem>) -> Seq<Seq<char>> {
    Seq::new(rule.len(), |i: int| rule[i].target@)
}

impl AllNet {
    /// The names of the nets that this one needs: the chain of a net, the
    /// targets of a composite's rules, nothing for the two nets that are
    /// always there.
    pub open spec fn dependency_names(&self) -> Seq<Seq<char>> {
        match self {
            AllNet::Net(net) => net.chain.names(),
            AllNet::Composite(c) => match c.composite.0 {
                Composite::Rule(r) => rule_targets(r.rule@),
            },
            _ => Seq::empty(),
        }
    }

    /// The names of the nets that this one needs.
    pub fn get_dependency(&self) -> (r: Vec<String>)
        ensures
            names_of(r@) == self.dependency_names(),
    {
        match self {
            AllNet::Net(net) => match &net.chain {
                Chain::One(s) => {
                    let mut v: Vec<String> = Vec::new();
                    v.push(s.clone());
                    assert(names_of(v@) =~= seq![s@]);
                    v
                },
                Chain::Many(v) => crate::context::clone_names(v),
            },
            AllNet::Composite(c) => match &c.composite.0 {
                Composite::Rule(r) => {
                    let mut out: Vec<String> = Vec::new();
                    let mut i: usize = 0;
                    while i < r.rule.len()
                        invariant
                            i <= r.rule@.len(),
                            out@.len() == i,
                            forall|j: int| 0 <= j < i ==> out@[j]@ == r.rule@[j].target@,
                        decreases r.rule@.len() - i,
                    {
                        out.push(r.rule[i].target.clone());
                        i += 1;
                    }
                    assert(names_of(out@) =~= rule_targets(r.rule@));
                    out
                },
            },
            _ => {
                let out: Vec<String> = Vec::new();
                assert(names_of(out@) =~= Seq::<Seq<char>>::empty());
                out
            },
        }
    }
}

/// The chain of a net that names none: the local net alone.
pub fn local_chain() -> (r: Chain)
    ensures
        r.names() == seq!["local"@],
{
    Chain::One("local".to_string())
}

/// The net that a server listens through unless told otherwise.
pub fn local_string() -> (r: String)
    ensures
        r@ == "local"@,
{
    "local".to_string()
}

/// The net that the flows of a server go to unless told otherwise.
pub fn rule() -> (r: String)
    ensures
        r@ == "rule"@,
{
    "rule".to_string()
}

/// The directory of the plugins unless told otherwise.
pub fn plugins() -> (r: String)
    ensures
        r@ == "plugins"@,
{
    "plugins".to_string()
}

impl Config {
    /// A configuration without nets and servers, with the default plugin
    /// directory.
    pub fn new() -> (r: Config)
        ensures
            r.plugin_path@ == "plugins"@,
            r.net.entries@.len() == 0,
            r.server.entries@.len() == 0,
            r.composite.entries@.len() == 0,
            r.import is None,
            r.net.wf(),
            r.server.wf(),
            r.composite.wf(),
    {
        Config {
            plugin_path: plugins(),
            net: NameTable::new(),
            server: NameTable::new(),
            composite: NameTable::new(),
            import: None,
        }
    }

    /// Takes the imports out of the configuration, for the caller to work
    /// them in one after the other.
    pub fn take_imports(&mut self) -> (r: Vec<Import>)
        ensures
            final(self).import is None,
            final(self).plugin_path == old(self).plugin_path,
            final(self).net == old(self).net,
            final(self).server == old(self).server,
            final(self).composite == old(self).composite,
            match old(self).import {
                Some(v) => r == v,
                None => r@.len() == 0,
            },
    {
        match self.import.take() {
            Some(v) => v,
            None => Vec::new(),
        }
    }
}

} // verus!

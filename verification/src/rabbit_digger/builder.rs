//! From a configuration to the nets in the order in which they are built.

use crate::builtin::local::LocalNetConfig;
use crate::builtin::net_config::NetConfig;
use crate::config::{ConfigNet, Net};
use crate::error::{Error, ErrorWithContext};
use crate::graph::{
    built_before, graph_view, graph_wf, is_build_order, is_cycle, lemma_build_order_excludes_cycle, topological_sort,
};
use crate::lru::{lemma_place_of, place_of};
use crate::name_table::{entry_names, NameTable, Named};
use crate::net_ref::{NetHandle, NetMap, NetRefView};
use crate::registry::Registry;
use crate::visitor::{
    collect_names, first_missing, lemma_collect_names, lemma_first_missing, names_of, resolved, resolved_upto, Config,
    EmptyConfig,
};
use vstd::prelude::*;

verus! {

/// A net of the running graph: its name, its configuration with every
/// reference resolved, and the handle under which the net itself is kept.
#[derive(Debug)]
pub struct RunningNet {
    pub name: String,
    pub opt: NetConfig,
    pub net: NetHandle,
}

/// The names that a net's configuration refers to, each once.
pub open spec fn dependencies_of(net: Net) -> Seq<Seq<char>> {
    collect_names(Seq::empty(), net.opt.net_refs())
}

/// Whether the configuration of the net refers to `name`.
pub open spec fn refers_to(net: Net, name: Seq<char>) -> bool {
    exists|t: int| 0 <= t < net.opt.net_refs().len() && (#[trigger] net.opt.net_refs()[t]).name == name
}

/// The nets are numbered in their order, and every reference holds the
/// handle of a net that stands earlier and has the name referred to.
pub open spec fn built_in_order(nets: Seq<RunningNet>) -> bool {
    &&& forall|k: int| 0 <= k < nets.len() ==> (#[trigger] nets[k]).net.id == k
    &&& forall|k: int, t: int|
        0 <= k < nets.len() && 0 <= t < nets[k].opt.net_refs().len() ==> is_earlier_net(
            nets,
            k,
            #[trigger] nets[k].opt.net_refs()[t],
        )
}

/// The reference holds the handle of a net before place `k` that has the
/// name referred to.
pub open spec fn is_earlier_net(nets: Seq<RunningNet>, k: int, net_ref: NetRefView) -> bool {
    net_ref.net matches Some(h) && h.id < k && nets[h.id as int].name@ == net_ref.name
}

/// The running net is the configured one: the same name, the same settings,
/// references to the same names.
pub open spec fn runs_configured(running: RunningNet, source: Named<Net>) -> bool {
    &&& running.name@ == source.name@
    &&& source.value.opt.same_settings(&running.opt)
    &&& running.opt.net_refs().len() == source.value.opt.net_refs().len()
    &&& forall|t: int|
        0 <= t < running.opt.net_refs().len() ==> (#[trigger] running.opt.net_refs()[t]).name
            == source.value.opt.net_refs()[t].name
}

/// The running net is one of the configured nets.
pub open spec fn is_configured_in(running: RunningNet, source: Seq<Named<Net>>) -> bool {
    exists|i: int| 0 <= i < source.len() && runs_configured(running, #[trigger] source[i])
}

/// The configured net is one of the running nets.
pub open spec fn runs_in(entry: Named<Net>, built: Seq<RunningNet>) -> bool {
    exists|k: int| 0 <= k < built.len() && runs_configured(#[trigger] built[k], entry)
}

/// The two entries are the same net: name, type, settings and references.
pub open spec fn same_entry(a: Named<Net>, b: Named<Net>) -> bool {
    &&& a.name@ == b.name@
    &&& a.value.net_type@ == b.value.net_type@
    &&& a.value.opt.same_settings(&b.value.opt)
    &&& a.value.opt.net_refs() == b.value.opt.net_refs()
}

/// The edges of `g` are the dependencies of the nets: edge `j` of net `i`
/// leads to the net that has the name of dependency `j`.
pub open spec fn edges_are_dependencies(nets: Seq<Named<Net>>, g: Seq<Seq<usize>>) -> bool {
    &&& g.len() == nets.len()
    &&& forall|i: int| 0 <= i < nets.len() ==> (#[trigger] g[i]).len() == dependencies_of(nets[i].value).len()
    &&& forall|i: int, j: int|
        0 <= i < nets.len() && 0 <= j < g[i].len() ==> (#[trigger] g[i][j]) < nets.len() && nets[g[i][j] as int].name@
            == dependencies_of(nets[i].value)[j]
}

/// Every net is of a type that the registry holds.
pub open spec fn types_are_loaded(registry: &Registry, nets: Seq<Named<Net>>) -> bool {
    forall|i: int| 0 <= i < nets.len() ==> registry.net.has((#[trigger] nets[i]).value.net_type@)
}

/// Every reference names one of the nets.
pub open spec fn references_are_known(nets: Seq<Named<Net>>) -> bool {
    forall|i: int, t: int|
        0 <= i < nets.len() && 0 <= t < nets[i].value.opt.net_refs().len() ==> entry_names(nets).contains(
            (#[trigger] nets[i].value.opt.net_refs()[t]).name,
        )
}

/// The index of the first reference whose name is none of `names`, or the
/// number of references where each of them names one.
pub open spec fn first_unknown(names: Seq<Seq<char>>, refs: Seq<NetRefView>) -> int
    decreases refs.len(),
{
    if refs.len() == 0 {
        0
    } else if names.contains(refs[0].name) {
        1 + first_unknown(names, refs.skip(1))
    } else {
        0
    }
}

/// Net `i` can be loaded: its type is in the registry, and each of its
/// references names one of the nets.
pub open spec fn net_loads(registry: &Registry, nets: Seq<Named<Net>>, i: int) -> bool {
    &&& registry.net.has(nets[i].value.net_type@)
    &&& first_unknown(entry_names(nets), nets[i].value.opt.net_refs()) == nets[i].value.opt.net_refs().len()
}

/// The place of the first net from `from` on that cannot be loaded, or the
/// number of nets where each of them can.
pub open spec fn first_failing(registry: &Registry, nets: Seq<Named<Net>>, from: int) -> int
    decreases nets.len() - from,
{
    if from >= nets.len() {
        nets.len() as int
    } else if !net_loads(registry, nets, from) {
        from
    } else {
        first_failing(registry, nets, from + 1)
    }
}

/// The error names the first net that cannot be loaded, and holds what is
/// wrong with it: the type that is not loaded or, where the type is loaded,
/// the first name that it refers to and that is no net.
pub open spec fn is_load_failure(registry: &Registry, nets: Seq<Named<Net>>, e: Error) -> bool {
    let i = first_failing(registry, nets, 0);
    let refs = nets[i].value.opt.net_refs();
    &&& 0 <= i < nets.len()
    &&& e matches Error::WithContext(w)
    &&& w.context@ == "Loading net "@ + nets[i].name@
    &&& *w.error matches Error::NotFound(what)
    &&& what@ == (if !registry.net.has(nets[i].value.net_type@) {
        "Net type is not loaded: "@ + nets[i].value.net_type@
    } else {
        refs[first_unknown(entry_names(nets), refs)].name
    })
}

/// `first_unknown` is the first index whose name is none of `names`.
pub proof fn lemma_first_unknown(names: Seq<Seq<char>>, refs: Seq<NetRefView>)
    ensures
        0 <= first_unknown(names, refs) <= refs.len(),
        forall|t: int| 0 <= t < first_unknown(names, refs) ==> names.contains((#[trigger] refs[t]).name),
        first_unknown(names, refs) < refs.len() ==> !names.contains(refs[first_unknown(names, refs)].name),
    decreases refs.len(),
{
    if refs.len() > 0 && names.contains(refs[0].name) {
        let rest = refs.skip(1);
        lemma_first_unknown(names, rest);
        assert forall|t: int| 0 <= t < first_unknown(names, refs) implies names.contains((#[trigger] refs[t]).name) by {
            if t > 0 {
                assert(refs[t] == rest[t - 1]);
            }
        }
        if first_unknown(names, refs) < refs.len() {
            assert(refs[first_unknown(names, refs)] == rest[first_unknown(names, rest)]);
        }
    }
}

/// `first_failing` is the first place from `from` on whose net cannot be loaded.
pub proof fn lemma_first_failing(registry: &Registry, nets: Seq<Named<Net>>, from: int)
    requires
        0 <= from <= nets.len(),
    ensures
        from <= first_failing(registry, nets, from) <= nets.len(),
        forall|k: int| from <= k < first_failing(registry, nets, from) ==> net_loads(registry, nets, k),
        first_failing(registry, nets, from) < nets.len() ==> !net_loads(
            registry,
            nets,
            first_failing(registry, nets, from),
        ),
    decreases nets.len() - from,
{
    if from < nets.len() && net_loads(registry, nets, from) {
        lemma_first_failing(registry, nets, from + 1);
    }
}

/// Where every net can be loaded, every type is loaded and every reference
/// names a net, and the other way round.
pub proof fn lemma_all_load(registry: &Registry, nets: Seq<Named<Net>>)
    ensures
        first_failing(registry, nets, 0) == nets.len() <==> types_are_loaded(registry, nets) && references_are_known(
            nets,
        ),
{
    lemma_first_failing(registry, nets, 0);
    let names = entry_names(nets);
    if first_failing(registry, nets, 0) == nets.len() {
        assert forall|i: int| 0 <= i < nets.len() implies registry.net.has((#[trigger] nets[i]).value.net_type@) by {
            assert(net_loads(registry, nets, i));
        }
        assert forall|i: int, t: int| 0 <= i < nets.len() && 0 <= t < nets[i].value.opt.net_refs().len() implies names.contains(
            (#[trigger] nets[i].value.opt.net_refs()[t]).name,
        ) by {
            assert(net_loads(registry, nets, i));
            lemma_first_unknown(names, nets[i].value.opt.net_refs());
        }
    }
    if types_are_loaded(registry, nets) && references_are_known(nets) {
        let i = first_failing(registry, nets, 0);
        if i < nets.len() {
            let refs = nets[i].value.opt.net_refs();
            lemma_first_unknown(names, refs);
            assert(registry.net.has(nets[i].value.net_type@));
            if first_unknown(names, refs) < refs.len() {
                assert(names.contains(refs[first_unknown(names, refs)].name));
            }
        }
    }
}

/// What was found before stays at the front of the collected names.
pub proof fn lemma_collect_prefix(found: Seq<Seq<char>>, refs: Seq<NetRefView>)
    ensures
        collect_names(found, refs).len() >= found.len(),
        forall|t: int| 0 <= t < found.len() ==> collect_names(found, refs)[t] == found[t],
    decreases refs.len(),
{
    if refs.len() > 0 {
        if found.contains(refs[0].name) {
            lemma_collect_prefix(found, refs.skip(1));
        } else {
            lemma_collect_prefix(found.push(refs[0].name), refs.skip(1));
            assert forall|t: int| 0 <= t < found.len() implies collect_names(found, refs)[t] == found[t] by {
                assert(found.push(refs[0].name)[t] == found[t]);
            }
        }
    }
}

/// The first collected name that is none of `names` is the name of the
/// first reference that names none of them. The result is the place of that
/// name among the collected ones, or their number where there is none.
pub proof fn lemma_first_unknown_dependency(names: Seq<Seq<char>>, found: Seq<Seq<char>>, refs: Seq<NetRefView>) -> (d: int)
    requires
        forall|t: int| 0 <= t < found.len() ==> names.contains(#[trigger] found[t]),
    ensures
        0 <= d <= collect_names(found, refs).len(),
        forall|t: int| 0 <= t < d ==> names.contains(#[trigger] collect_names(found, refs)[t]),
        d == collect_names(found, refs).len() <==> first_unknown(names, refs) == refs.len(),
        d < collect_names(found, refs).len() ==> !names.contains(collect_names(found, refs)[d]) && collect_names(
            found,
            refs,
        )[d] == refs[first_unknown(names, refs)].name,
    decreases refs.len(),
{
    lemma_first_unknown(names, refs);
    if refs.len() == 0 {
        found.len() as int
    } else {
        let rest = refs.skip(1);
        let first = refs[0].name;
        lemma_first_unknown(names, rest);
        if found.contains(first) {
            let d = lemma_first_unknown_dependency(names, found, rest);
            if first_unknown(names, rest) < rest.len() {
                assert(refs[first_unknown(names, refs)] == rest[first_unknown(names, rest)]);
            }
            d
        } else if names.contains(first) {
            let next = found.push(first);
            assert forall|t: int| 0 <= t < next.len() implies names.contains(#[trigger] next[t]) by {
                if t < found.len() {
                    assert(next[t] == found[t]);
                }
            }
            let d = lemma_first_unknown_dependency(names, next, rest);
            if first_unknown(names, rest) < rest.len() {
                assert(refs[first_unknown(names, refs)] == rest[first_unknown(names, rest)]);
            }
            d
        } else {
            let next = found.push(first);
            lemma_collect_prefix(next, rest);
            assert(collect_names(found, refs) == collect_names(next, rest));
            assert(next[found.len() as int] == first);
            assert forall|t: int| 0 <= t < found.len() implies names.contains(#[trigger] collect_names(found, refs)[t]) by {
                assert(next[t] == found[t]);
            }
            found.len() as int
        }
    }
}

/// A reference from one net to another is an edge between their places in
/// the graph of the dependencies.
pub proof fn lemma_reference_is_edge(nets: Seq<Named<Net>>, g: Seq<Seq<usize>>, from: Seq<char>, to: Seq<char>)
    requires
        entry_names(nets).no_duplicates(),
        edges_are_dependencies(nets, g),
        net_refers(nets, from, to),
    ensures
        0 <= place_of(entry_names(nets), from) < g.len(),
        0 <= place_of(entry_names(nets), to) < g.len(),
        g[place_of(entry_names(nets), from)].contains(place_of(entry_names(nets), to) as usize),
{
    let names = entry_names(nets);
    let a = choose|a: int| 0 <= a < nets.len() && (#[trigger] nets[a]).name@ == from && refers_to(nets[a].value, to);
    lemma_place_of(names, from);
    assert(names[a] == from);
    let pa = place_of(names, from);
    assert(pa <= a);
    assert(names[pa] == from);
    assert(pa == a);
    lemma_collect_names(Seq::empty(), nets[a].value.opt.net_refs());
    let deps = dependencies_of(nets[a].value);
    assert(deps.contains(to));
    let j = choose|j: int| 0 <= j < deps.len() && deps[j] == to;
    assert(g[a].len() == deps.len());
    let b = g[a][j];
    assert(b < nets.len() && nets[b as int].name@ == to);
    lemma_place_of(names, to);
    assert(names[b as int] == to);
    let pb = place_of(names, to);
    assert(pb <= b);
    assert(names[pb] == to);
    assert(pb == b);
}

/// The places of the names among the names of the nets.
pub open spec fn places_of(nets: Seq<Named<Net>>, names: Seq<Seq<char>>) -> Seq<usize> {
    Seq::new(names.len(), |k: int| place_of(entry_names(nets), names[k]) as usize)
}

/// The graph has the edge from place `k` of the circle to the next place.
pub open spec fn is_edge_at(g: Seq<Seq<usize>>, c: Seq<usize>, k: int) -> bool {
    c[k] < g.len() && g[c[k] as int].contains(c[next_on_circle(k, c.len() as int)])
}

/// One step along a circle of names is an edge of the graph of the dependencies.
proof fn lemma_name_cycle_step(nets: Seq<Named<Net>>, g: Seq<Seq<usize>>, cycle: Seq<Seq<char>>, k: int)
    requires
        nets.len() <= usize::MAX,
        entry_names(nets).no_duplicates(),
        edges_are_dependencies(nets, g),
        is_name_cycle(nets, cycle),
        0 <= k < cycle.len(),
    ensures
        is_edge_at(g, places_of(nets, cycle), k),
{
    let next = next_on_circle(k, cycle.len() as int);
    assert(refers_onward(nets, cycle, k));
    lemma_reference_is_edge(nets, g, cycle[k], cycle[next]);
    let c = places_of(nets, cycle);
    assert(c.len() == cycle.len());
    assert(c[k] == place_of(entry_names(nets), cycle[k]) as usize);
    assert(c[next] == place_of(entry_names(nets), cycle[next]) as usize);
    assert(g[c[k] as int].contains(c[next]));
}

/// Places that are joined by edges all the way round are a circle.
proof fn lemma_edges_make_cycle(g: Seq<Seq<usize>>, c: Seq<usize>)
    requires
        c.len() > 0,
        forall|k: int| 0 <= k < c.len() ==> #[trigger] is_edge_at(g, c, k),
    ensures
        is_cycle(g, c),
{
    assert forall|k: int| 0 <= k < c.len() implies (#[trigger] c[k]) < g.len() && g[c[k] as int].contains(
        c[if k + 1 == c.len() {
            0
        } else {
            k + 1
        }],
    ) by {
        assert(is_edge_at(g, c, k));
    }
}

/// A circle of names is a circle in the graph of the dependencies: the
/// circle of the places of the names.
pub proof fn lemma_name_cycle_is_cycle(nets: Seq<Named<Net>>, g: Seq<Seq<usize>>, cycle: Seq<Seq<char>>)
    requires
        nets.len() <= usize::MAX,
        entry_names(nets).no_duplicates(),
        edges_are_dependencies(nets, g),
        is_name_cycle(nets, cycle),
    ensures
        is_cycle(g, places_of(nets, cycle)),
{
    let c = places_of(nets, cycle);
    assert forall|k: int| 0 <= k < c.len() implies #[trigger] is_edge_at(g, c, k) by {
        lemma_name_cycle_step(nets, g, cycle, k);
    }
    lemma_edges_make_cycle(g, c);
}

/// The net called `from` refers to the name `to`.
pub open spec fn net_refers(nets: Seq<Named<Net>>, from: Seq<char>, to: Seq<char>) -> bool {
    exists|a: int| 0 <= a < nets.len() && (#[trigger] nets[a]).name@ == from && refers_to(nets[a].value, to)
}

/// The place after `k` on a circle of `len` places.
pub open spec fn next_on_circle(k: int, len: int) -> int {
    if k + 1 == len {
        0
    } else {
        k + 1
    }
}

/// The net called by name `k` of the circle refers to the next name on it.
pub open spec fn refers_onward(nets: Seq<Named<Net>>, cycle: Seq<Seq<char>>, k: int) -> bool {
    net_refers(nets, cycle[k], cycle[next_on_circle(k, cycle.len() as int)])
}

/// The names lead in a circle along references: each is a net that refers to
/// the next, the last one to the first.
pub open spec fn is_name_cycle(nets: Seq<Named<Net>>, cycle: Seq<Seq<char>>) -> bool {
    &&& cycle.len() > 0
    &&& forall|k: int| 0 <= k < cycle.len() ==> #[trigger] refers_onward(nets, cycle, k)
}

/// What the table of nets is made into before anything is built: the nets
/// `noop` and `local` are added with their default settings where the
/// configuration lacks them.
pub open spec fn completes(before: &ConfigNet, after: &ConfigNet) -> bool {
    &&& after.wf()
    &&& after.has("noop"@)
    &&& after.has("local"@)
    &&& forall|n: Seq<char>| before.has(n) ==> #[trigger] after.has(n) && after.value_of(n) == before.value_of(n)
    &&& forall|n: Seq<char>| #[trigger] after.has(n) ==> before.has(n) || n == "noop"@ || n == "local"@
    &&& !before.has("noop"@) ==> after.value_of("noop"@).net_type@ == "noop"@ && after.value_of("noop"@).opt is Noop
    &&& !before.has("local"@) ==> after.value_of("local"@).net_type@ == "local"@ && after.value_of("local"@).opt is Local
}

/// Adds the nets `noop` and `local` with their default settings where the
/// configuration lacks them.
pub fn with_defaults(all_net: ConfigNet) -> (r: ConfigNet)
    requires
        all_net.wf(),
    ensures
        completes(&all_net, &r),
{
    let mut nets = all_net;
    let ghost t0 = nets;
    let noop = "noop".to_string();
    if !nets.contains_key(&noop) {
        let net = Net::new_opt("noop".to_string(), NetConfig::Noop(EmptyConfig {  }));
        let _ = nets.insert(noop, net);
    }
    let ghost t1 = nets;
    proof {
        assert forall|n: Seq<char>| t0.has(n) implies #[trigger] t1.has(n) && t1.value_of(n) == t0.value_of(n) by {
            if n != "noop"@ {
                assert(t1.has(n) == t0.has(n));
            }
        }
        assert forall|n: Seq<char>| #[trigger] t1.has(n) implies t0.has(n) || n == "noop"@ by {
            if n != "noop"@ {
                assert(t1.has(n) == t0.has(n));
            }
        }
    }
    let local = "local".to_string();
    if !nets.contains_key(&local) {
        let net = Net::new_opt("local".to_string(), NetConfig::Local(LocalNetConfig::default()));
        let _ = nets.insert(local, net);
    }
    proof {
        reveal_strlit("noop");
        reveal_strlit("local");
        assert("noop"@ != "local"@) by {
            assert("noop"@.len() == 4);
            assert("local"@.len() == 5);
        }
        assert forall|n: Seq<char>| t1.has(n) implies #[trigger] nets.has(n) && nets.value_of(n) == t1.value_of(n) by {
            if n != "local"@ {
                assert(nets.has(n) == t1.has(n));
            }
        }
        assert forall|n: Seq<char>| #[trigger] nets.has(n) implies t1.has(n) || n == "local"@ by {
            if n != "local"@ {
                assert(nets.has(n) == t1.has(n));
            }
        }
        assert(nets.has("noop"@));
        assert forall|n: Seq<char>| t0.has(n) implies #[trigger] nets.has(n) && nets.value_of(n) == t0.value_of(n) by {
            assert(t1.has(n));
        }
        assert forall|n: Seq<char>| #[trigger] nets.has(n) implies t0.has(n) || n == "noop"@ || n == "local"@ by {
            if n != "local"@ {
                assert(t1.has(n));
            }
        }
    }
    nets
}

/// The dependencies of every net as a graph over the places of the nets.
/// The nets are left as they were. Fails at the first net that is of a type
/// that is not loaded or refers to a name that is not a net; the error holds
/// the name of that net in front of what is not found.
pub fn dependency_graph(registry: &Registry, nets: &mut Vec<Named<Net>>) -> (r: Result<Vec<Vec<usize>>, Error>)
    requires
        entry_names(old(nets)@).no_duplicates(),
    ensures
        final(nets)@.len() == old(nets)@.len(),
        forall|i: int| 0 <= i < old(nets)@.len() ==> same_entry((#[trigger] old(nets)@[i]), final(nets)@[i]),
        match r {
            Ok(g) => {
                &&& graph_wf(graph_view(&g))
                &&& edges_are_dependencies(old(nets)@, graph_view(&g))
                &&& types_are_loaded(registry, old(nets)@)
                &&& references_are_known(old(nets)@)
                &&& first_failing(registry, old(nets)@, 0) == old(nets)@.len()
            },
            Err(e) => is_load_failure(registry, old(nets)@, e),
        },
{
    let ghost source = nets@;
    let n = nets.len();
    let mut graph: Vec<Vec<usize>> = Vec::new();
    let mut i: usize = 0;
    while i < n
        invariant
            i <= n,
            n == source.len(),
            nets@.len() == n,
            source == old(nets)@,
            entry_names(source).no_duplicates(),
            forall|k: int| 0 <= k < n ==> same_entry((#[trigger] source[k]), nets@[k]),
            graph@.len() == i,
            first_failing(registry, source, i as int) == first_failing(registry, source, 0),
            forall|k: int| 0 <= k < i ==> registry.net.has((#[trigger] source[k]).value.net_type@),
            forall|k: int| 0 <= k < i ==> (#[trigger] graph@[k])@.len() == dependencies_of(source[k].value).len(),
            forall|k: int, j: int|
                0 <= k < i && 0 <= j < graph@[k]@.len() ==> (#[trigger] graph@[k]@[j]) < n && source[graph@[k]@[j] as int].name@
                    == dependencies_of(source[k].value)[j],
        decreases n - i,
    {
        let ghost before = nets@;
        let item = match registry.get_net(&nets[i].value.net_type) {
            Ok(item) => item,
            Err(e) => {
                proof {
                    assert(same_entry(source[i as int], nets@[i as int]));
                    assert(!registry.net.has(source[i as int].value.net_type@));
                    assert(!net_loads(registry, source, i as int));
                }
                return Err(Error::WithContext(ErrorWithContext::new("Loading net ".to_string().concat(nets[i].name.as_str()), e)));
            },
        };
        proof {
            assert(same_entry(source[i as int], nets@[i as int]));
            assert(registry.net.has(source[i as int].value.net_type@));
        }
        let names = match item.resolver.get_dependency(&mut nets[i].value.opt) {
            Ok(names) => names,
            Err(e) => {
                return Err(e);
            },
        };
        proof {
            assert forall|k: int| 0 <= k < n implies same_entry((#[trigger] source[k]), nets@[k]) by {
                assert(same_entry(source[k], before[k]));
                if k == i {
                    source[k].value.opt.lemma_same_settings_chain(&before[k].value.opt, &nets@[k].value.opt);
                } else {
                    assert(nets@[k] == before[k]);
                }
            }
            assert(names_of(names@) == dependencies_of(source[i as int].value));
        }
        let mut row: Vec<usize> = Vec::new();
        let mut j: usize = 0;
        while j < names.len()
            invariant
                j <= names@.len(),
                i < n,
                n == source.len(),
                source == old(nets)@,
                nets@.len() == n,
                registry.net.has(source[i as int].value.net_type@),
                first_failing(registry, source, i as int) == first_failing(registry, source, 0),
                forall|k: int| 0 <= k < n ==> same_entry((#[trigger] source[k]), nets@[k]),
                names_of(names@) == dependencies_of(source[i as int].value),
                row@.len() == j,
                forall|t: int| 0 <= t < j ==> (#[trigger] row@[t]) < n && source[row@[t] as int].name@ == names@[t]@,
            decreases names@.len() - j,
        {
            match find_net(nets, &names[j]) {
                Some(p) => {
                    proof {
                        assert(same_entry(source[p as int], nets@[p as int]));
                    }
                    row.push(p);
                },
                None => {
                    proof {
                        let missing = names@[j as int]@;
                        assert(names_of(names@)[j as int] == missing);
                        assert(dependencies_of(source[i as int].value).contains(missing));
                        lemma_collect_names(Seq::empty(), source[i as int].value.opt.net_refs());
                        let refs = source[i as int].value.opt.net_refs();
                        let t = choose|t: int| 0 <= t < refs.len() && (#[trigger] refs[t]).name == missing;
                        if entry_names(source).contains(missing) {
                            let q = choose|q: int| 0 <= q < source.len() && entry_names(source)[q] == missing;
                            assert(same_entry(source[q], nets@[q]));
                            assert(entry_names(nets@)[q] == missing);
                        }
                        assert(!entry_names(source).contains(refs[t].name));
                        let known = entry_names(source);
                        let deps = dependencies_of(source[i as int].value);
                        let d = lemma_first_unknown_dependency(known, Seq::empty(), refs);
                        assert forall|t: int| 0 <= t < j implies known.contains(#[trigger] deps[t]) by {
                            assert(names_of(names@)[t] == names@[t]@);
                            assert(known[row@[t] as int] == deps[t]);
                        }
                        assert(deps[j as int] == missing);
                        assert(d == j);
                        lemma_first_unknown(known, refs);
                        assert(!net_loads(registry, source, i as int));
                        assert(names@[j as int]@ == refs[first_unknown(known, refs)].name);
                        assert(same_entry(source[i as int], nets@[i as int]));
                    }
                    return Err(
                        Error::WithContext(
                            ErrorWithContext::new(
                                "Loading net ".to_string().concat(nets[i].name.as_str()),
                                Error::NotFound(names[j].clone()),
                            ),
                        ),
                    );
                },
            }
            j += 1;
        }
        proof {
            assert forall|t: int| 0 <= t < row@.len() implies source[row@[t] as int].name@ == dependencies_of(
                source[i as int].value,
            )[t] by {
                assert(names_of(names@)[t] == names@[t]@);
            }
            let known = entry_names(source);
            let refs = source[i as int].value.opt.net_refs();
            let deps = dependencies_of(source[i as int].value);
            let d = lemma_first_unknown_dependency(known, Seq::empty(), refs);
            if d < deps.len() {
                assert(known[row@[d] as int] == deps[d]);
            }
            assert(net_loads(registry, source, i as int));
        }
        graph.push(row);
        i += 1;
    }
    proof {
        let g = graph_view(&graph);
        assert forall|a: int, b: int| 0 <= a < g.len() && 0 <= b < g[a].len() implies (#[trigger] g[a][b]) < g.len() by {
            assert(graph@[a]@[b] < n);
        }
        assert forall|a: int, t: int|
            0 <= a < source.len() && 0 <= t < source[a].value.opt.net_refs().len() implies entry_names(source).contains(
            (#[trigger] source[a].value.opt.net_refs()[t]).name,
        ) by {
            let refs = source[a].value.opt.net_refs();
            lemma_collect_names(Seq::empty(), refs);
            let name = refs[t].name;
            assert(dependencies_of(source[a].value).contains(name));
            let j = choose|j: int|
                0 <= j < dependencies_of(source[a].value).len() && dependencies_of(source[a].value)[j] == name;
            let p = graph@[a]@[j];
            assert(source[p as int].name@ == name);
            assert(entry_names(source)[p as int] == name);
        }
        assert forall|a: int, b: int| 0 <= a < source.len() && 0 <= b < g[a].len() implies (#[trigger] g[a][b]) < source.len()
            && source[g[a][b] as int].name@ == dependencies_of(source[a].value)[b] by {
            assert(graph@[a]@[b] < n);
        }
    }
    Ok(graph)
}

/// The place of the net called `name`.
pub fn find_net(nets: &Vec<Named<Net>>, name: &String) -> (r: Option<usize>)
    ensures
        match r {
            Some(p) => p < nets@.len() && nets@[p as int].name@ == name@,
            None => !entry_names(nets@).contains(name@),
        },
{
    let mut i: usize = 0;
    while i < nets.len()
        invariant
            i <= nets@.len(),
            forall|j: int| 0 <= j < i ==> entry_names(nets@)[j] != name@,
        decreases nets@.len() - i,
    {
        if nets[i].name == *name {
            return Some(i);
        }
        i += 1;
    }
    None
}

/// The net map holds exactly the nets built so far, each under its name
/// with its number.
pub open spec fn maps_built(map: Map<Seq<char>, NetHandle>, built: Seq<RunningNet>) -> bool {
    &&& forall|m: int| 0 <= m < built.len() ==> map.contains_key((#[trigger] built[m]).name@)
    &&& forall|name: Seq<char>| #[trigger]
        map.contains_key(name) ==> map[name].id < built.len() && built[map[name].id as int].name@ == name
}

/// Builds one net: its references are filled from the nets built so far, and
/// it gets the handle `net`. Fails where the type of the net is not loaded,
/// with a message that names the type, and else where a reference names none
/// of the nets built so far, with the first such name.
pub fn build_net(name: String, i: Net, registry: &Registry, getter: &NetMap, net: NetHandle) -> (r: Result<
    RunningNet,
    Error,
>)
    requires
        getter.wf(),
    ensures
        r is Ok <==> registry.net.has(i.net_type@) && first_missing(getter@, i.opt.net_refs())
            == i.opt.net_refs().len(),
        match r {
            Ok(running) => {
                &&& running.name == name
                &&& running.net == net
                &&& i.opt.same_settings(&running.opt)
                &&& running.opt.net_refs() == resolved_upto(getter@, i.opt.net_refs(), i.opt.net_refs().len() as int)
            },
            Err(e) => e matches Error::NotFound(what) && what@ == (if !registry.net.has(i.net_type@) {
                "Net type is not loaded: "@ + i.net_type@
            } else {
                i.opt.net_refs()[first_missing(getter@, i.opt.net_refs())].name
            }),
        },
{
    let net_item = match registry.get_net(&i.net_type) {
        Ok(item) => item,
        Err(e) => {
            return Err(e);
        },
    };
    match net_item.build(getter, i.opt) {
        Ok(opt) => Ok(RunningNet { name, opt, net }),
        Err(e) => Err(e),
    }
}

/// Builds the nets in the given order. Each net finds everything that it
/// refers to among the nets built before it.
fn build_in_order(
    registry: &Registry,
    nets: Vec<Named<Net>>,
    order: &Vec<usize>,
    Ghost(g): Ghost<Seq<Seq<usize>>>,
) -> (r: Result<Vec<RunningNet>, Error>)
    requires
        entry_names(nets@).no_duplicates(),
        types_are_loaded(registry, nets@),
        edges_are_dependencies(nets@, g),
        is_build_order(g, order@),
    ensures
        r matches Ok(built) && built_in_order(built@) && built@.len() == nets@.len() && forall|k: int|
            0 <= k < built@.len() ==> runs_configured(#[trigger] built@[k], nets@[order@[k] as int]),
{
    let ghost source = nets@;
    let n = nets.len();
    // every net in a slot of its own, to be taken out when its turn comes
    let mut slots: Vec<Option<Named<Net>>> = Vec::new();
    let mut rest = nets;
    while rest.len() > 0
        invariant
            slots@.len() + rest@.len() == n,
            n == source.len(),
            rest@ == source.skip(slots@.len() as int),
            forall|i: int| 0 <= i < slots@.len() ==> (#[trigger] slots@[i]) == Some(source[i]),
        decreases rest@.len(),
    {
        let ghost i = slots@.len() as int;
        let entry = rest.remove(0);
        proof {
            assert(entry == source[i]);
            assert(rest@ =~= source.skip(i + 1));
        }
        slots.push(Some(entry));
    }
    let mut map = NetMap::new();
    let mut built: Vec<RunningNet> = Vec::new();
    let mut k: usize = 0;
    while k < n
        invariant
            k <= n,
            n == source.len(),
            n == order@.len(),
            slots@.len() == n,
            built@.len() == k,
            map.wf(),
            entry_names(source).no_duplicates(),
            types_are_loaded(registry, source),
            edges_are_dependencies(source, g),
            is_build_order(g, order@),
            built_in_order(built@),
            maps_built(map@, built@),
            forall|m: int| 0 <= m < k ==> runs_configured(#[trigger] built@[m], source[order@[m] as int]),
            forall|i: int|
                0 <= i < n ==> (#[trigger] slots@[i]) == (if built_before(order@, k as int, i as usize) {
                    None
                } else {
                    Some(source[i])
                }),
        decreases n - k,
    {
        let idx = order[k];
        proof {
            assert(order@[k as int] < n);
            assert(!built_before(order@, k as int, idx)) by {
                if built_before(order@, k as int, idx) {
                    let m = choose|m: int| 0 <= m < k && #[trigger] order@[m] == idx;
                    assert(order@[m] == order@[k as int]);
                }
            }
            assert(slots@[idx as int] == Some(source[idx as int]));
        }
        let ghost slots0 = slots@;
        let entry = match slots[idx].take() {
            Some(entry) => entry,
            None => {
                return Err(Error::Other("a net is built twice".to_string()));
            },
        };
        proof {
            assert(entry == source[idx as int]);
            assert forall|i: int| 0 <= i < n implies (#[trigger] slots@[i]) == (if built_before(
                order@,
                k + 1,
                i as usize,
            ) {
                None
            } else {
                Some(source[i])
            }) by {
                if i == idx {
                    assert(order@[k as int] == i as usize);
                } else {
                    assert(slots@[i] == slots0[i]);
                    if built_before(order@, k + 1, i as usize) {
                        let m = choose|m: int| 0 <= m < k + 1 && #[trigger] order@[m] == i as usize;
                        assert(m < k);
                    }
                    if built_before(order@, k as int, i as usize) {
                        let m = choose|m: int| 0 <= m < k && #[trigger] order@[m] == i as usize;
                        assert(order@[m] == i as usize);
                    }
                }
            }
        }
        let Named { name, value } = entry;
        let ghost refs = value.opt.net_refs();
        proof {
            // everything that the net refers to stands among the nets built so far
            lemma_collect_names(Seq::empty(), refs);
            assert forall|t: int| 0 <= t < refs.len() implies map@.contains_key((#[trigger] refs[t]).name) by {
                let wanted = refs[t].name;
                let deps = dependencies_of(source[idx as int].value);
                assert(deps.contains(wanted));
                let j = choose|j: int| 0 <= j < deps.len() && deps[j] == wanted;
                assert(g[idx as int].len() == deps.len());
                let dep = g[idx as int][j];
                assert(source[dep as int].name@ == wanted);
                assert(built_before(order@, k as int, g[order@[k as int] as int][j]));
                let m = choose|m: int| 0 <= m < k && #[trigger] order@[m] == dep;
                assert(runs_configured(built@[m], source[order@[m] as int]));
                assert(map@.contains_key(built@[m].name@));
            }
            lemma_first_missing(map@, refs);
        }
        let key = name.clone();
        let running = match build_net(name, value, registry, &map, NetHandle { id: k }) {
            Ok(running) => running,
            Err(e) => {
                proof {
                    assert(registry.net.has(source[idx as int].value.net_type@));
                }
                return Err(e);
            },
        };
        let ghost map0 = map@;
        let ghost built0 = built@;
        let _ = map.insert(key, NetHandle { id: k });
        built.push(running);
        proof {
            let now = built@;
            assert(now == built0.push(now[k as int]));
            assert forall|m: int| 0 <= m < now.len() implies map@.contains_key((#[trigger] now[m]).name@) by {
                if m < k {
                    assert(now[m] == built0[m]);
                    assert(map0.contains_key(built0[m].name@));
                }
            }
            assert forall|name: Seq<char>| #[trigger] map@.contains_key(name) implies map@[name].id < now.len()
                && now[map@[name].id as int].name@ == name by {
                if name != now[k as int].name@ {
                    assert(map0.contains_key(name));
                    assert(now[map0[name].id as int] == built0[map0[name].id as int]);
                } else {
                    assert(map@[name].id == k);
                }
            }
            assert forall|m: int| 0 <= m < now.len() implies (#[trigger] now[m]).net.id == m by {
                if m < k {
                    assert(now[m] == built0[m]);
                }
            }
            assert forall|m: int, t: int| 0 <= m < now.len() && 0 <= t < now[m].opt.net_refs().len() implies is_earlier_net(
                now,
                m,
                #[trigger] now[m].opt.net_refs()[t],
            ) by {
                if m < k {
                    assert(now[m] == built0[m]);
                    assert(is_earlier_net(built0, m, built0[m].opt.net_refs()[t]));
                    let h = built0[m].opt.net_refs()[t].net->0;
                    assert(now[h.id as int] == built0[h.id as int]);
                } else {
                    let r = now[m].opt.net_refs()[t];
                    assert(r == resolved(map0, refs[t]));
                    assert(map0.contains_key(refs[t].name));
                    let h = map0[refs[t].name];
                    assert(now[h.id as int] == built0[h.id as int]);
                }
            }
            assert forall|m: int| 0 <= m < now.len() implies runs_configured(#[trigger] now[m], source[order@[m] as int]) by {
                if m < k {
                    assert(now[m] == built0[m]);
                }
            }
        }
        k += 1;
    }
    Ok(built)
}

/// The names of the nets at the places of a cycle.
fn cycle_names(nets: &Vec<Named<Net>>, cycle: &Vec<usize>, Ghost(g): Ghost<Seq<Seq<usize>>>) -> (r: Vec<String>)
    requires
        edges_are_dependencies(nets@, g),
        is_cycle(g, cycle@),
    ensures
        is_name_cycle(nets@, names_of(r@)),
{
    let mut out: Vec<String> = Vec::new();
    let mut k: usize = 0;
    while k < cycle.len()
        invariant
            k <= cycle@.len(),
            out@.len() == k,
            edges_are_dependencies(nets@, g),
            is_cycle(g, cycle@),
            forall|m: int| 0 <= m < k ==> (#[trigger] out@[m])@ == nets@[cycle@[m] as int].name@,
        decreases cycle@.len() - k,
    {
        assert(cycle@[k as int] < g.len());
        out.push(nets[cycle[k]].name.clone());
        k += 1;
    }
    proof {
        let names = names_of(out@);
        assert forall|m: int| 0 <= m < names.len() implies #[trigger] refers_onward(nets@, names, m) by {
            let next = if m + 1 == names.len() {
                0
            } else {
                m + 1
            };
            let a = cycle@[m];
            let b = cycle@[next];
            assert(a < g.len() && g[a as int].contains(b));
            let j = choose|j: int| 0 <= j < g[a as int].len() && g[a as int][j] == b;
            let deps = dependencies_of(nets@[a as int].value);
            assert(nets@[g[a as int][j] as int].name@ == deps[j]);
            assert(deps.contains(names[next]));
            lemma_collect_names(Seq::empty(), nets@[a as int].value.opt.net_refs());
            assert(refers_to(nets@[a as int].value, names[next]));
            assert(nets@[a as int].name@ == names[m]);
        }
    }
    out
}

/// Builds the nets of a configuration that holds `noop` and `local`.
///
/// The nets come out in an order in which each stands behind everything it
/// refers to, with every reference resolved. Fails at the first net that is
/// of a type that is not loaded or refers to a name that is not a net, and
/// with `Cycle` where every net can be loaded and nets refer to each other
/// in a circle.
pub fn build_completed_nets(registry: &Registry, all_net: ConfigNet) -> (r: Result<Vec<RunningNet>, Error>)
    requires
        all_net.wf(),
    ensures
        build_outcome(registry, all_net.entries@, r),
{
    let ghost source = all_net.entries@;
    let mut nets = all_net.entries;
    let graph = match dependency_graph(registry, &mut nets) {
        Ok(graph) => graph,
        Err(e) => {
            return Err(e);
        },
    };
    let ghost g = graph_view(&graph);
    proof {
        // the nets are as they were, as far as names and references go
        assert(entry_names(nets@) =~= entry_names(source)) by {
            assert forall|i: int| 0 <= i < source.len() implies entry_names(nets@)[i] == entry_names(source)[i] by {
                assert(same_entry(source[i], nets@[i]));
            }
        }
        assert(edges_are_dependencies(nets@, g)) by {
            assert forall|i: int| 0 <= i < nets@.len() implies (#[trigger] g[i]).len() == dependencies_of(
                nets@[i].value,
            ).len() by {
                assert(same_entry(source[i], nets@[i]));
            }
            assert forall|i: int, j: int| 0 <= i < nets@.len() && 0 <= j < g[i].len() implies (#[trigger] g[i][j])
                < nets@.len() && nets@[g[i][j] as int].name@ == dependencies_of(nets@[i].value)[j] by {
                assert(same_entry(source[i], nets@[i]));
                assert(same_entry(source[g[i][j] as int], nets@[g[i][j] as int]));
            }
        }
        assert(types_are_loaded(registry, nets@)) by {
            assert forall|i: int| 0 <= i < nets@.len() implies registry.net.has((#[trigger] nets@[i]).value.net_type@) by {
                assert(same_entry(source[i], nets@[i]));
            }
        }
    }
    let order = match topological_sort(&graph) {
        Ok(order) => order,
        Err(cycle) => {
            let names = cycle_names(&nets, &cycle, Ghost(g));
            proof {
                lemma_name_cycle_carries(nets@, source, names_of(names@));
            }
            return Err(Error::Cycle(names));
        },
    };
    let ghost mid = nets@;
    match build_in_order(registry, nets, &order, Ghost(g)) {
        Ok(built) => {
            proof {
                crate::graph::lemma_build_order_covers(g, order@);
                assert forall|k: int| 0 <= k < built@.len() implies is_configured_in(#[trigger] built@[k], source) by {
                    let i = order@[k] as int;
                    assert(0 <= i < source.len());
                    assert(runs_configured(built@[k], mid[i]));
                    assert(same_entry(source[i], mid[i]));
                    lemma_runs_configured_carries(built@[k], mid[i], source[i]);
                }
                assert forall|i: int| 0 <= i < source.len() implies runs_in(#[trigger] source[i], built@) by {
                    assert(order@.contains(i as usize));
                    let k = choose|k: int| 0 <= k < order@.len() && order@[k] == i as usize;
                    assert(runs_configured(built@[k], mid[order@[k] as int]));
                    assert(same_entry(source[i], mid[i]));
                    lemma_runs_configured_carries(built@[k], mid[i], source[i]);
                }
                assert forall|cycle: Seq<Seq<char>>| !is_name_cycle(source, cycle) by {
                    if is_name_cycle(source, cycle) {
                        lemma_name_cycle_is_cycle(source, g, cycle);
                        lemma_build_order_excludes_cycle(g, order@, places_of(source, cycle));
                    }
                }
            }
            Ok(built)
        },
        Err(e) => Err(e),
    }
}

/// A running net that is one entry is every entry that is the same net.
pub proof fn lemma_runs_configured_carries(running: RunningNet, mid: Named<Net>, source: Named<Net>)
    requires
        runs_configured(running, mid),
        same_entry(source, mid),
    ensures
        runs_configured(running, source),
{
    source.value.opt.lemma_same_settings_chain(&mid.value.opt, &running.opt);
}

/// A circle among nets is one among every list of the same nets.
pub proof fn lemma_name_cycle_carries(mid: Seq<Named<Net>>, source: Seq<Named<Net>>, cycle: Seq<Seq<char>>)
    requires
        mid.len() == source.len(),
        forall|i: int| 0 <= i < source.len() ==> same_entry((#[trigger] source[i]), mid[i]),
        is_name_cycle(mid, cycle),
    ensures
        is_name_cycle(source, cycle),
{
    assert forall|k: int| 0 <= k < cycle.len() implies #[trigger] refers_onward(source, cycle, k) by {
        let to = cycle[if k + 1 == cycle.len() {
            0
        } else {
            k + 1
        }];
        assert(refers_onward(mid, cycle, k));
        let a = choose|a: int| 0 <= a < mid.len() && (#[trigger] mid[a]).name@ == cycle[k] && refers_to(mid[a].value, to);
        assert(same_entry(source[a], mid[a]));
        let t = choose|t: int|
            0 <= t < mid[a].value.opt.net_refs().len() && (#[trigger] mid[a].value.opt.net_refs()[t]).name == to;
        assert(source[a].value.opt.net_refs()[t].name == to);
        assert(refers_to(source[a].value, to));
    }
}

/// Builds the nets of a configuration: `noop` and `local` are added with
/// their default settings where the configuration lacks them, the nets are
/// put in an order in which each stands behind everything it refers to, and
/// each is built with its references resolved against the nets before it.
pub fn build_nets(registry: &Registry, all_net: ConfigNet) -> (r: Result<Vec<RunningNet>, Error>)
    requires
        all_net.wf(),
    ensures
        r matches Ok(built) ==> built_in_order(built@),
        exists|completed: ConfigNet| #[trigger]
            completes(&all_net, &completed) && build_outcome(registry, completed.entries@, r),
{
    let completed = with_defaults(all_net);
    let ghost c = completed;
    let r = build_completed_nets(registry, completed);
    proof {
        assert(completes(&all_net, &c) && build_outcome(registry, c.entries@, r));
    }
    r
}

/// What building the nets `source` ends in. The nets are built where each of
/// them can be loaded and no circle of references leads through them; else
/// the error tells the first net that cannot be loaded, or a circle.
pub open spec fn build_outcome(registry: &Registry, source: Seq<Named<Net>>, r: Result<Vec<RunningNet>, Error>) -> bool {
    match r {
        Ok(built) => {
            &&& first_failing(registry, source, 0) == source.len()
            &&& types_are_loaded(registry, source)
            &&& references_are_known(source)
            &&& forall|cycle: Seq<Seq<char>>| !is_name_cycle(source, cycle)
            &&& built_in_order(built@)
            &&& built@.len() == source.len()
            &&& forall|k: int| 0 <= k < built@.len() ==> is_configured_in(#[trigger] built@[k], source)
            &&& forall|i: int| 0 <= i < source.len() ==> runs_in(#[trigger] source[i], built@)
        },
        Err(Error::Cycle(names)) => {
            &&& first_failing(registry, source, 0) == source.len()
            &&& is_name_cycle(source, names_of(names@))
        },
        Err(e) => is_load_failure(registry, source, e),
    }
}

/// The nets are built exactly where each of them can be loaded and no
/// circle of references leads through them.
pub proof fn lemma_built_where_possible(registry: &Registry, source: Seq<Named<Net>>, r: Result<Vec<RunningNet>, Error>)
    requires
        build_outcome(registry, source, r),
    ensures
        r is Ok <==> first_failing(registry, source, 0) == source.len() && forall|cycle: Seq<Seq<char>>|
            !is_name_cycle(source, cycle),
{
    if let Err(Error::Cycle(names)) = r {
        assert(is_name_cycle(source, names_of(names@)));
    }
}

/// What runs has the names of what was configured: a name is that of a
/// running net exactly where it is that of a configured one.
pub proof fn lemma_built_names(registry: &Registry, source: Seq<Named<Net>>, built: Vec<RunningNet>, name: Seq<char>)
    requires
        build_outcome(registry, source, Ok(built)),
    ensures
        entry_names(source).contains(name) <==> place_of(crate::rabbit_digger::running::running_names(built@), name)
            < built@.len(),
{
    let running = crate::rabbit_digger::running::running_names(built@);
    lemma_place_of(running, name);
    if entry_names(source).contains(name) {
        let i = choose|i: int| 0 <= i < entry_names(source).len() && entry_names(source)[i] == name;
        assert(runs_in(source[i], built@));
        let k = choose|k: int| 0 <= k < built@.len() && runs_configured(#[trigger] built@[k], source[i]);
        assert(running[k] == name);
    }
    if place_of(running, name) < built@.len() {
        let k = place_of(running, name);
        assert(running[k] == built@[k].name@);
        assert(is_configured_in(built@[k], source));
        let i = choose|i: int| 0 <= i < source.len() && runs_configured(built@[k], #[trigger] source[i]);
        assert(entry_names(source)[i] == name);
    }
}

} // verus!

//! The nets and servers that come with the router, as far as they decide
//! anything: their typed configurations and how they hand operations on.

pub mod alias;
pub mod combine;
pub mod forward;
pub mod local;
pub mod net_config;

use crate::lru::lemma_place_of;
use crate::plugin::Registry;
use vstd::prelude::*;

verus! {

/// The types of nets that come with the router.
pub open spec fn is_builtin_net(name: Seq<char>) -> bool {
    name == "local"@ || name == "noop"@ || name == "alias"@ || name == "combine"@ || name == "rule"@ || name
        == "dns_sniffer"@ || name == "http"@
}

/// The types of servers that come with the router.
pub open spec fn is_builtin_server(name: Seq<char>) -> bool {
    name == "http"@ || name == "socks5"@ || name == "forward"@ || name == "mixed"@
}

/// Registers the types of nets and servers that come with the router.
/// What stood under one of their names is replaced.
pub fn init(registry: &mut Registry)
    requires
        old(registry).wf(),
    ensures
        final(registry).wf(),
        forall|n: Seq<char>| #[trigger] final(registry).net.has(n) == (old(registry).net.has(n) || is_builtin_net(n)),
        forall|n: Seq<char>|
            #[trigger] final(registry).server.has(n) == (old(registry).server.has(n) || is_builtin_server(n)),
{
    registry.add_net("local".to_string());
    registry.add_net("noop".to_string());
    registry.add_net("alias".to_string());
    registry.add_net("combine".to_string());
    registry.add_net("rule".to_string());
    registry.add_net("dns_sniffer".to_string());
    registry.add_net("http".to_string());
    registry.add_server("http".to_string());
    registry.add_server("socks5".to_string());
    registry.add_server("forward".to_string());
    registry.add_server("mixed".to_string());
}

/// Loads what comes with the router into its registry, under the plugin
/// name `builtin`.
pub fn load_builtin(registry: &mut crate::registry::Registry)
    requires
        old(registry).wf(),
    ensures
        final(registry).wf(),
        forall|n: Seq<char>| #[trigger] final(registry).net.has(n) == (old(registry).net.has(n) || is_builtin_net(n)),
        forall|n: Seq<char>|
            #[trigger] final(registry).server.has(n) == (old(registry).server.has(n) || is_builtin_server(n)),
        forall|n: Seq<char>| is_builtin_net(n) ==> (#[trigger] final(registry).net.value_of(n)).plugin_name@ == "builtin"@,
        forall|n: Seq<char>|
            is_builtin_server(n) ==> (#[trigger] final(registry).server.value_of(n)).plugin_name@ == "builtin"@,
{
    let mut plugin = Registry::new();
    init(&mut plugin);
    proof {
        assert forall|n: Seq<char>| #[trigger] plugin.net.names().contains(n) == is_builtin_net(n) by {
            lemma_place_of(plugin.net.names(), n);
            assert(plugin.net.has(n) == is_builtin_net(n));
        }
        assert forall|n: Seq<char>| #[trigger] plugin.server.names().contains(n) == is_builtin_server(n) by {
            lemma_place_of(plugin.server.names(), n);
            assert(plugin.server.has(n) == is_builtin_server(n));
        }
    }
    registry.add_registry("builtin".to_string(), plugin);
}

} // verus!

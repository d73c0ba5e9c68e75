//! What travels with one flow: where it came from, the nets it went through,
//! and hints that one net leaves for the next.

use crate::address::SocketAddress;
use crate::visitor::names_of;
use vstd::prelude::*;

verus! {

/// The domain that an address was resolved from, with the port of the flow.
#[derive(Debug)]
pub struct DestDomain {
    pub domain: String,
    pub port: u16,
}

/// What a `DestDomain` says.
pub struct DestDomainView {
    pub domain: Seq<char>,
    pub port: u16,
}

impl View for DestDomain {
    type V = DestDomainView;

    open spec fn view(&self) -> DestDomainView {
        DestDomainView { domain: self.domain@, port: self.port }
    }
}

impl Clone for DestDomain {
    fn clone(&self) -> (r: DestDomain)
        ensures
            r@ == self@,
    {
        DestDomain { domain: self.domain.clone(), port: self.port }
    }
}

/// The context of one flow.
#[derive(Debug)]
pub struct Context {
    pub source_addr: Option<SocketAddress>,
    pub net_list: Vec<String>,
    pub dest_domain: Option<DestDomain>,
    pub dest_country: Option<String>,
}

/// What a context says.
pub struct ContextView {
    pub source_addr: Option<SocketAddress>,
    pub net_list: Seq<Seq<char>>,
    pub dest_domain: Option<DestDomainView>,
    pub dest_country: Option<Seq<char>>,
}

impl View for Context {
    type V = ContextView;

    open spec fn view(&self) -> ContextView {
        ContextView {
            source_addr: self.source_addr,
            net_list: names_of(self.net_list@),
            dest_domain: match self.dest_domain {
                Some(d) => Some(d@),
                None => None,
            },
            dest_country: match self.dest_country {
                Some(c) => Some(c@),
                None => None,
            },
        }
    }
}

/// A copy of a list of names.
pub fn clone_names(names: &Vec<String>) -> (r: Vec<String>)
    ensures
        names_of(r@) == names_of(names@),
{
    let mut out: Vec<String> = Vec::new();
    let mut i: usize = 0;
    while i < names.len()
        invariant
            i <= names@.len(),
            out@.len() == i,
            forall|j: int| 0 <= j < i ==> out@[j]@ == names@[j]@,
        decreases names@.len() - i,
    {
        out.push(names[i].clone());
        i += 1;
    }
    assert(names_of(out@) =~= names_of(names@));
    out
}

impl Clone for Context {
    /// An independent copy, for a flow that branches off.
    fn clone(&self) -> (r: Context)
        ensures
            r@ == self@,
    {
        Context {
            source_addr: self.source_addr,
            net_list: clone_names(&self.net_list),
            dest_domain: match &self.dest_domain {
                Some(d) => Some(d.clone()),
                None => None,
            },
            dest_country: match &self.dest_country {
                Some(c) => Some(c.clone()),
                None => None,
            },
        }
    }
}

impl Context {
    /// The context of a flow of unknown origin.
    pub fn new() -> (r: Context)
        ensures
            r@ == (ContextView { source_addr: None, net_list: Seq::empty(), dest_domain: None, dest_country: None }),
    {
        let r = Context { source_addr: None, net_list: Vec::new(), dest_domain: None, dest_country: None };
        assert(names_of(r.net_list@) =~= Seq::<Seq<char>>::empty());
        r
    }

    /// The context of a flow that came from `addr`.
    pub fn from_socketaddr(addr: SocketAddress) -> (r: Context)
        ensures
            r@ == (ContextView {
                source_addr: Some(addr),
                net_list: Seq::empty(),
                dest_domain: None,
                dest_country: None,
            }),
    {
        let r = Context { source_addr: Some(addr), net_list: Vec::new(), dest_domain: None, dest_country: None };
        assert(names_of(r.net_list@) =~= Seq::<Seq<char>>::empty());
        r
    }

    /// Where the flow came from, if that is known.
    pub fn get_source_addr(&self) -> (r: Option<SocketAddress>)
        ensures
            r == self@.source_addr,
    {
        self.source_addr
    }

    /// Adds a net to the end of the list of nets that the flow went through.
    pub fn append_net(&mut self, name: &String)
        ensures
            final(self)@ == (ContextView { net_list: old(self)@.net_list.push(name@), ..old(self)@ }),
    {
        let ghost before = names_of(self.net_list@);
        self.net_list.push(name.clone());
        assert(names_of(self.net_list@) =~= before.push(name@));
    }

    /// The nets that the flow went through, the first one first.
    pub fn net_list(&self) -> (r: &Vec<String>)
        ensures
            names_of(r@) == self@.net_list,
    {
        &self.net_list
    }

    /// Notes the domain that the destination was resolved from.
    pub fn insert_dest_domain(&mut self, dest: DestDomain)
        ensures
            final(self)@ == (ContextView { dest_domain: Some(dest@), ..old(self)@ }),
    {
        self.dest_domain = Some(dest);
    }

    /// The domain that the destination was resolved from, if one was noted.
    pub fn dest_domain(&self) -> (r: &Option<DestDomain>)
        ensures
            *r == self.dest_domain,
    {
        &self.dest_domain
    }

    /// Notes the country that the destination's address lies in.
    pub fn insert_dest_country(&mut self, country: String)
        ensures
            final(self)@ == (ContextView { dest_country: Some(country@), ..old(self)@ }),
    {
        self.dest_country = Some(country);
    }
}

} // verus!

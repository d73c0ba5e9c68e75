//! Walking a typed configuration: every `NetRef` in it is handed to a visitor,
//! once and in a fixed order. Resolving the references against the nets built
//! so far and collecting the names they refer to are two such walks.

use crate::error::Error;
use crate::net_ref::{NetMap, NetRef, NetRefView, NetHandle};
use vstd::prelude::*;

verus! {

/// The hook that a walk calls for each reference.
pub trait Visitor {
    /// What the visitor carries from one reference to the next.
    type State;

    spec fn state(&self) -> Self::State;

    /// What the visitor needs to hold of itself between visits.
    spec fn inv(&self) -> bool;

    /// One visit as a function: the state and the reference afterwards, and
    /// whether the visit succeeded.
    spec fn visited(state: Self::State, net_ref: NetRefView) -> (Self::State, NetRefView, bool);

    /// The errors that a failed visit of `net_ref` may report.
    spec fn failure(state: Self::State, net_ref: NetRefView, e: Error) -> bool;

    fn visit_net_ref(&mut self, net_ref: &mut NetRef) -> (r: Result<(), Error>)
        requires
            old(self).inv(),
        ensures
            final(self).inv(),
            (final(self).state(), final(net_ref)@, r is Ok) == Self::visited(old(self).state(), old(net_ref)@),
            r matches Err(e) ==> Self::failure(old(self).state(), old(net_ref)@, e),
    ;
}

/// The outcome of a walk: the visitor's state and the references afterwards,
/// and how many references were visited with success.
pub struct Walk<S> {
    pub state: S,
    pub refs: Seq<NetRefView>,
    pub done: int,
}

/// Visits `refs` from the first on and stops behind the first visit that fails.
pub open spec fn walk<V: Visitor>(state: V::State, refs: Seq<NetRefView>) -> Walk<V::State>
    decreases refs.len(),
{
    if refs.len() == 0 {
        Walk { state, refs, done: 0 }
    } else {
        let (s1, r1, ok) = V::visited(state, refs[0]);
        if ok {
            let rest = walk::<V>(s1, refs.skip(1));
            Walk { state: rest.state, refs: seq![r1] + rest.refs, done: rest.done + 1 }
        } else {
            Walk { state: s1, refs: seq![r1] + refs.skip(1), done: 0 }
        }
    }
}

/// The walk over `refs` fails, and `e` is an error that its failing visit may report.
pub open spec fn walk_fails_with<V: Visitor>(state: V::State, refs: Seq<NetRefView>, e: Error) -> bool
    decreases refs.len(),
{
    refs.len() > 0 && {
        let (s1, r1, ok) = V::visited(state, refs[0]);
        if ok {
            walk_fails_with::<V>(s1, refs.skip(1), e)
        } else {
            V::failure(state, refs[0], e)
        }
    }
}

/// How `visit` relates a configuration and a visitor before the call to both after it.
pub open spec fn visit_post<V: Visitor>(
    state_before: V::State,
    refs_before: Seq<NetRefView>,
    state_after: V::State,
    refs_after: Seq<NetRefView>,
    r: Result<(), Error>,
) -> bool {
    let w = walk::<V>(state_before, refs_before);
    &&& state_after == w.state
    &&& refs_after == w.refs
    &&& (r is Ok <==> w.done == refs_before.len())
    &&& (r matches Err(e) ==> walk_fails_with::<V>(state_before, refs_before, e))
}

/// A typed configuration: a tree with `NetRef` leaves.
pub trait Config {
    /// The references of the tree, in the order in which a walk meets them.
    spec fn net_refs(&self) -> Seq<NetRefView>;

    /// The two configurations agree in all but what their references hold.
    spec fn same_settings(&self, other: &Self) -> bool;

    /// A configuration agrees with itself.
    proof fn lemma_same_settings(&self)
        ensures
            self.same_settings(self),
    ;

    /// Agreement carries over a configuration in the middle.
    proof fn lemma_same_settings_chain(&self, mid: &Self, last: &Self)
        requires
            self.same_settings(mid),
            mid.same_settings(last),
        ensures
            self.same_settings(last),
    ;

    /// Hands each reference to the visitor, and stops at the first failure.
    fn visit<V: Visitor>(&mut self, visitor: &mut V) -> (r: Result<(), Error>)
        requires
            old(visitor).inv(),
        ensures
            final(visitor).inv(),
            old(self).same_settings(final(self)),
            visit_post::<V>(old(visitor).state(), old(self).net_refs(), final(visitor).state(), final(self).net_refs(), r),
    ;
}

/// A walk keeps the number of references, and visits no more than there are.
pub proof fn lemma_walk_len<V: Visitor>(state: V::State, refs: Seq<NetRefView>)
    ensures
        walk::<V>(state, refs).refs.len() == refs.len(),
        0 <= walk::<V>(state, refs).done <= refs.len(),
    decreases refs.len(),
{
    if refs.len() > 0 {
        let (s1, r1, ok) = V::visited(state, refs[0]);
        lemma_walk_len::<V>(s1, refs.skip(1));
    }
}

/// A walk over `a` followed by `b` is the walk over `a`, and then, if that one
/// succeeded, the walk over `b` from where it ended.
pub proof fn lemma_walk_concat<V: Visitor>(state: V::State, a: Seq<NetRefView>, b: Seq<NetRefView>)
    ensures
        ({
            let wa = walk::<V>(state, a);
            let w = walk::<V>(state, a + b);
            if wa.done == a.len() {
                let wb = walk::<V>(wa.state, b);
                &&& w.state == wb.state
                &&& w.refs == wa.refs + wb.refs
                &&& w.done == a.len() + wb.done
                &&& forall|e: Error| walk_fails_with::<V>(state, a + b, e) == walk_fails_with::<V>(wa.state, b, e)
            } else {
                &&& w.state == wa.state
                &&& w.refs == wa.refs + b
                &&& w.done == wa.done
                &&& forall|e: Error| walk_fails_with::<V>(state, a + b, e) == walk_fails_with::<V>(state, a, e)
            }
        }),
    decreases a.len(),
{
    lemma_walk_len::<V>(state, a);
    let wa = walk::<V>(state, a);
    let w = walk::<V>(state, a + b);
    if a.len() == 0 {
        assert(a + b =~= b);
        let wb = walk::<V>(state, b);
        assert(wa.refs + wb.refs =~= wb.refs);
    } else {
        let (s1, r1, ok) = V::visited(state, a[0]);
        let rest = a.skip(1);
        assert((a + b)[0] == a[0]);
        assert((a + b).skip(1) =~= rest + b);
        if ok {
            lemma_walk_concat::<V>(s1, rest, b);
            lemma_walk_len::<V>(s1, rest);
            let ra = walk::<V>(s1, rest);
            if ra.done == rest.len() {
                let wb = walk::<V>(ra.state, b);
                assert(w.refs =~= wa.refs + wb.refs);
                assert forall|e: Error| walk_fails_with::<V>(state, a + b, e) == walk_fails_with::<V>(wa.state, b, e) by {
                    assert(walk_fails_with::<V>(state, a + b, e) == walk_fails_with::<V>(s1, rest + b, e));
                }
            } else {
                assert(w.refs =~= wa.refs + b);
                assert forall|e: Error| walk_fails_with::<V>(state, a + b, e) == walk_fails_with::<V>(state, a, e) by {
                    assert(walk_fails_with::<V>(state, a + b, e) == walk_fails_with::<V>(s1, rest + b, e));
                    assert(walk_fails_with::<V>(state, a, e) == walk_fails_with::<V>(s1, rest, e));
                }
            }
        } else {
            assert(w.refs =~= wa.refs + b);
            assert forall|e: Error| walk_fails_with::<V>(state, a + b, e) == walk_fails_with::<V>(state, a, e) by {
                assert(walk_fails_with::<V>(state, a + b, e) == V::failure(state, a[0], e));
                assert(walk_fails_with::<V>(state, a, e) == V::failure(state, a[0], e));
            }
        }
    }
}

/// Two visits in a row are one visit of the references of both: where the
/// first fails, the second part is left as it was.
pub proof fn lemma_visit_seq<V: Visitor>(
    s0: V::State,
    a: Seq<NetRefView>,
    b: Seq<NetRefView>,
    s1: V::State,
    a1: Seq<NetRefView>,
    r1: Result<(), Error>,
    s2: V::State,
    b2: Seq<NetRefView>,
    r2: Result<(), Error>,
)
    requires
        visit_post::<V>(s0, a, s1, a1, r1),
        r1 is Ok ==> visit_post::<V>(s1, b, s2, b2, r2),
    ensures
        r1 is Ok ==> visit_post::<V>(s0, a + b, s2, a1 + b2, r2),
        r1 is Err ==> visit_post::<V>(s0, a + b, s1, a1 + b, r1),
{
    lemma_walk_concat::<V>(s0, a, b);
    lemma_walk_len::<V>(s0, a);
    lemma_walk_len::<V>(s1, b);
}

/// Visits the references of `a`, and then, if that went well, those of `b`.
pub fn visit_both<A: Config, B: Config, V: Visitor>(a: &mut A, b: &mut B, visitor: &mut V) -> (r: Result<(), Error>)
    requires
        old(visitor).inv(),
    ensures
        final(visitor).inv(),
        old(a).same_settings(final(a)),
        old(b).same_settings(final(b)),
        visit_post::<V>(
            old(visitor).state(),
            old(a).net_refs() + old(b).net_refs(),
            final(visitor).state(),
            final(a).net_refs() + final(b).net_refs(),
            r,
        ),
{
    let ghost s0 = visitor.state();
    let ghost a0 = a.net_refs();
    let ghost b0 = b.net_refs();
    let r1 = a.visit(visitor);
    let ghost s1 = visitor.state();
    let ghost g1 = r1;
    match r1 {
        Ok(()) => {
            let r2 = b.visit(visitor);
            proof {
                lemma_visit_seq::<V>(s0, a0, b0, s1, a.net_refs(), g1, visitor.state(), b.net_refs(), r2);
            }
            r2
        },
        Err(e) => {
            proof {
                lemma_visit_seq::<V>(s0, a0, b0, s1, a.net_refs(), g1, s1, b0, g1);
                b.lemma_same_settings();
            }
            Err(e)
        },
    }
}

/// A walk that visited every reference did not fail.
pub proof fn lemma_full_walk_has_no_failure<V: Visitor>(state: V::State, refs: Seq<NetRefView>, e: Error)
    requires
        walk::<V>(state, refs).done == refs.len(),
    ensures
        !walk_fails_with::<V>(state, refs, e),
    decreases refs.len(),
{
    if refs.len() > 0 {
        let (s1, r1, ok) = V::visited(state, refs[0]);
        lemma_walk_len::<V>(s1, refs.skip(1));
        if ok {
            lemma_full_walk_has_no_failure::<V>(s1, refs.skip(1), e);
        }
    }
}

impl Config for NetRef {
    open spec fn net_refs(&self) -> Seq<NetRefView> {
        seq![self@]
    }

    open spec fn same_settings(&self, other: &Self) -> bool {
        true
    }

    proof fn lemma_same_settings(&self) {
    }

    proof fn lemma_same_settings_chain(&self, mid: &Self, last: &Self) {
    }

    fn visit<V: Visitor>(&mut self, visitor: &mut V) -> (r: Result<(), Error>) {
        let ghost refs = self.net_refs();
        let ghost state = visitor.state();
        let r = visitor.visit_net_ref(self);
        proof {
            let (s1, r1, ok) = V::visited(state, refs[0]);
            assert(refs.skip(1) =~= Seq::<NetRefView>::empty());
            assert(walk::<V>(s1, refs.skip(1)).refs =~= Seq::<NetRefView>::empty());
            assert(walk::<V>(state, refs).refs =~= seq![r1]);
            assert(self.net_refs() =~= seq![r1]);
        }
        r
    }
}

/// What the references of a list say.
pub open spec fn refs_of(list: Seq<NetRef>) -> Seq<NetRefView> {
    Seq::new(list.len(), |i: int| list[i]@)
}

impl Config for Vec<NetRef> {
    open spec fn net_refs(&self) -> Seq<NetRefView> {
        refs_of(self@)
    }

    open spec fn same_settings(&self, other: &Self) -> bool {
        self@.len() == other@.len()
    }

    proof fn lemma_same_settings(&self) {
    }

    proof fn lemma_same_settings_chain(&self, mid: &Self, last: &Self) {
    }

    fn visit<V: Visitor>(&mut self, visitor: &mut V) -> (r: Result<(), Error>) {
        let ghost s0 = visitor.state();
        let ghost refs0 = self.net_refs();
        let n = self.len();
        let mut i: usize = 0;
        proof {
            assert(refs0.take(0) =~= Seq::<NetRefView>::empty());
            assert(refs_of(self@).take(0) =~= Seq::<NetRefView>::empty());
        }
        while i < n
            invariant
                i <= n,
                n == refs0.len(),
                n == old(self)@.len(),
                s0 == old(visitor).state(),
                refs0 == refs_of(old(self)@),
                self@.len() == n,
                visitor.inv(),
                forall|j: int| i <= j < n ==> (#[trigger] self@[j])@ == refs0[j],
                visit_post::<V>(s0, refs0.take(i as int), visitor.state(), refs_of(self@).take(i as int), Ok(())),
            decreases n - i,
        {
            let ghost si = visitor.state();
            let ghost done = refs_of(self@).take(i as int);
            let ghost before = self@;
            let r = self[i].visit(visitor);
            let ghost g = r;
            proof {
                let now = refs_of(self@);
                assert(self@.len() == n);
                assert forall|j: int| 0 <= j < n && j != i implies (#[trigger] self@[j])@ == before[j]@ by {}
                let one = seq![refs0[i as int]];
                let new_one = seq![now[i as int]];
                assert(self@[i as int].net_refs() =~= new_one);
                assert(now.take(i as int) =~= done);
                lemma_visit_seq::<V>(s0, refs0.take(i as int), one, si, done, Ok(()), visitor.state(), new_one, g);
                assert(refs0.take(i as int) + one =~= refs0.take(i + 1));
                assert(done + new_one =~= now.take(i + 1));
                if g is Err {
                    let rest = refs0.skip(i + 1);
                    lemma_visit_seq::<V>(
                        s0,
                        refs0.take(i + 1),
                        rest,
                        visitor.state(),
                        now.take(i + 1),
                        g,
                        visitor.state(),
                        rest,
                        g,
                    );
                    assert(refs0.take(i + 1) + rest =~= refs0);
                    assert(now.take(i + 1) + rest =~= now);
                }
            }
            match r {
                Ok(()) => {},
                Err(e) => {
                    return Err(e);
                },
            }
            i += 1;
        }
        proof {
            assert(refs0.take(n as int) =~= refs0);
            assert(refs_of(self@).take(n as int) =~= refs_of(self@));
        }
        Ok(())
    }
}

/// A configuration without settings and without references.
#[derive(Clone, Copy, Debug, Default)]
pub struct EmptyConfig {}

impl Config for EmptyConfig {
    open spec fn net_refs(&self) -> Seq<NetRefView> {
        Seq::empty()
    }

    open spec fn same_settings(&self, other: &Self) -> bool {
        true
    }

    proof fn lemma_same_settings(&self) {
    }

    proof fn lemma_same_settings_chain(&self, mid: &Self, last: &Self) {
    }

    fn visit<V: Visitor>(&mut self, visitor: &mut V) -> (r: Result<(), Error>) {
        Ok(())
    }
}

/// The visitor that fills each reference from the nets built so far.
pub struct ResolveNetVisitor<'a> {
    pub nets: &'a NetMap,
}

/// A reference with its slot filled from `nets`.
pub open spec fn resolved(nets: Map<Seq<char>, NetHandle>, net_ref: NetRefView) -> NetRefView {
    NetRefView { name: net_ref.name, net: Some(nets[net_ref.name]) }
}

impl<'a> Visitor for ResolveNetVisitor<'a> {
    type State = Map<Seq<char>, NetHandle>;

    open spec fn state(&self) -> Map<Seq<char>, NetHandle> {
        self.nets@
    }

    open spec fn inv(&self) -> bool {
        self.nets.wf()
    }

    open spec fn visited(state: Map<Seq<char>, NetHandle>, net_ref: NetRefView) -> (
        Map<Seq<char>, NetHandle>,
        NetRefView,
        bool,
    ) {
        if state.contains_key(net_ref.name) {
            (state, resolved(state, net_ref), true)
        } else {
            (state, net_ref, false)
        }
    }

    open spec fn failure(state: Map<Seq<char>, NetHandle>, net_ref: NetRefView, e: Error) -> bool {
        e matches Error::NotFound(name) && name@ == net_ref.name
    }

    fn visit_net_ref(&mut self, net_ref: &mut NetRef) -> (r: Result<(), Error>) {
        match self.nets.get(net_ref.name()) {
            Some(net) => {
                net_ref.set_net(net);
                Ok(())
            },
            None => Err(Error::NotFound(net_ref.name().clone())),
        }
    }
}

/// The index of the first reference whose name `nets` does not hold, or the
/// number of references where it holds them all.
pub open spec fn first_missing(nets: Map<Seq<char>, NetHandle>, refs: Seq<NetRefView>) -> int
    decreases refs.len(),
{
    if refs.len() == 0 {
        0
    } else if nets.contains_key(refs[0].name) {
        1 + first_missing(nets, refs.skip(1))
    } else {
        0
    }
}

/// The references with the first `upto` of them resolved.
pub open spec fn resolved_upto(nets: Map<Seq<char>, NetHandle>, refs: Seq<NetRefView>, upto: int) -> Seq<NetRefView> {
    Seq::new(
        refs.len(),
        |i: int|
            if i < upto {
                resolved(nets, refs[i])
            } else {
                refs[i]
            },
    )
}

/// `first_missing` is the first index whose name is missing.
pub proof fn lemma_first_missing(nets: Map<Seq<char>, NetHandle>, refs: Seq<NetRefView>)
    ensures
        0 <= first_missing(nets, refs) <= refs.len(),
        forall|i: int| 0 <= i < first_missing(nets, refs) ==> nets.contains_key((#[trigger] refs[i]).name),
        first_missing(nets, refs) < refs.len() ==> !nets.contains_key(refs[first_missing(nets, refs)].name),
    decreases refs.len(),
{
    if refs.len() > 0 && nets.contains_key(refs[0].name) {
        let rest = refs.skip(1);
        lemma_first_missing(nets, rest);
        assert forall|i: int| 0 <= i < first_missing(nets, refs) implies nets.contains_key((#[trigger] refs[i]).name) by {
            if i > 0 {
                assert(refs[i] == rest[i - 1]);
            }
        }
        if first_missing(nets, refs) < refs.len() {
            assert(refs[first_missing(nets, refs)] == rest[first_missing(nets, rest)]);
        }
    }
}

/// The walk of the resolving visitor in closed form.
pub proof fn lemma_resolve_walk(nets: Map<Seq<char>, NetHandle>, refs: Seq<NetRefView>)
    ensures
        walk::<ResolveNetVisitor>(nets, refs) == (Walk {
            state: nets,
            refs: resolved_upto(nets, refs, first_missing(nets, refs)),
            done: first_missing(nets, refs),
        }),
        forall|e: Error| #[trigger]
            walk_fails_with::<ResolveNetVisitor>(nets, refs, e) ==> first_missing(nets, refs) < refs.len() && (e matches Error::NotFound(
                name,
            ) && name@ == refs[first_missing(nets, refs)].name),
    decreases refs.len(),
{
    let w = walk::<ResolveNetVisitor>(nets, refs);
    let k = first_missing(nets, refs);
    lemma_first_missing(nets, refs);
    if refs.len() == 0 {
        assert(w.refs =~= resolved_upto(nets, refs, k));
    } else {
        let rest = refs.skip(1);
        let kr = first_missing(nets, rest);
        lemma_resolve_walk(nets, rest);
        lemma_first_missing(nets, rest);
        if nets.contains_key(refs[0].name) {
            assert(k == 1 + kr);
            let wr = walk::<ResolveNetVisitor>(nets, rest);
            assert(wr.refs == resolved_upto(nets, rest, kr));
            assert(w.refs == seq![resolved(nets, refs[0])] + wr.refs);
            assert forall|i: int| 0 <= i < refs.len() implies w.refs[i] == resolved_upto(nets, refs, k)[i] by {
                if i > 0 {
                    assert(w.refs[i] == wr.refs[i - 1]);
                    assert(rest[i - 1] == refs[i]);
                }
            }
            assert(w.refs =~= resolved_upto(nets, refs, k));
            assert forall|e: Error| #[trigger]
                walk_fails_with::<ResolveNetVisitor>(nets, refs, e) implies k < refs.len() && (e matches Error::NotFound(
                name,
            ) && name@ == refs[k].name) by {
                assert(walk_fails_with::<ResolveNetVisitor>(nets, rest, e));
                assert(kr < rest.len());
                assert(refs[k] == rest[kr]);
            }
        } else {
            assert(k == 0);
            assert forall|i: int| 0 <= i < refs.len() implies w.refs[i] == resolved_upto(nets, refs, k)[i] by {
                if i > 0 {
                    assert(w.refs[i] == rest[i - 1]);
                }
            }
            assert(w.refs =~= resolved_upto(nets, refs, k));
        }
    }
}

/// Fills every reference of `config` with the net that `nets` holds under its
/// name. Stops at the first name that `nets` does not hold, and reports it.
pub fn resolve_net<C: Config>(config: &mut C, nets: &NetMap) -> (r: Result<(), Error>)
    requires
        nets.wf(),
    ensures
        old(config).same_settings(final(config)),
        final(config).net_refs() == resolved_upto(
            nets@,
            old(config).net_refs(),
            first_missing(nets@, old(config).net_refs()),
        ),
        r is Ok <==> first_missing(nets@, old(config).net_refs()) == old(config).net_refs().len(),
        r matches Err(e) ==> e matches Error::NotFound(name) && name@ == old(config).net_refs()[first_missing(
            nets@,
            old(config).net_refs(),
        )].name,
{
    let mut visitor = ResolveNetVisitor { nets };
    proof {
        lemma_resolve_walk(nets@, config.net_refs());
    }
    config.visit(&mut visitor)
}

/// After a walk that resolved every reference no slot is empty.
pub proof fn lemma_resolved_is_complete(nets: Map<Seq<char>, NetHandle>, refs: Seq<NetRefView>)
    requires
        first_missing(nets, refs) == refs.len(),
    ensures
        forall|i: int| 0 <= i < refs.len() ==> (#[trigger] resolved_upto(nets, refs, refs.len() as int)[i]).net is Some,
        forall|i: int|
            0 <= i < refs.len() ==> (#[trigger] resolved_upto(nets, refs, refs.len() as int)[i]).net == Some(
                nets[refs[i].name],
            ),
        count_unresolved(resolved_upto(nets, refs, refs.len() as int)) == 0,
{
    lemma_count_unresolved(resolved_upto(nets, refs, refs.len() as int));
}

/// The number of references whose slot is empty.
pub open spec fn count_unresolved(refs: Seq<NetRefView>) -> nat
    decreases refs.len(),
{
    if refs.len() == 0 {
        0
    } else {
        (if refs[0].net is None {
            1nat
        } else {
            0nat
        }) + count_unresolved(refs.skip(1))
    }
}

/// No reference counts as unresolved exactly when every slot is filled.
pub proof fn lemma_count_unresolved(refs: Seq<NetRefView>)
    ensures
        count_unresolved(refs) == 0 <==> forall|i: int| 0 <= i < refs.len() ==> (#[trigger] refs[i]).net is Some,
    decreases refs.len(),
{
    if refs.len() > 0 {
        let rest = refs.skip(1);
        lemma_count_unresolved(rest);
        if count_unresolved(refs) == 0 {
            assert forall|i: int| 0 <= i < refs.len() implies (#[trigger] refs[i]).net is Some by {
                if i > 0 {
                    assert(refs[i] == rest[i - 1]);
                }
            }
        }
        if forall|i: int| 0 <= i < refs.len() ==> (#[trigger] refs[i]).net is Some {
            assert(refs[0].net is Some);
            assert forall|i: int| 0 <= i < rest.len() implies (#[trigger] rest[i]).net is Some by {
                assert(rest[i] == refs[i + 1]);
            }
        }
    }
}

/// The visitor that asks of each reference whether its slot is empty, and counts.
pub struct UnresolvedVisitor {
    pub hits: usize,
}

impl Visitor for UnresolvedVisitor {
    type State = nat;

    open spec fn state(&self) -> nat {
        self.hits as nat
    }

    open spec fn inv(&self) -> bool {
        true
    }

    open spec fn visited(state: nat, net_ref: NetRefView) -> (nat, NetRefView, bool) {
        if net_ref.net is Some {
            (state, net_ref, true)
        } else if state < usize::MAX {
            (state + 1, net_ref, true)
        } else {
            (state, net_ref, false)
        }
    }

    open spec fn failure(state: nat, net_ref: NetRefView, e: Error) -> bool {
        e is Other
    }

    fn visit_net_ref(&mut self, net_ref: &mut NetRef) -> (r: Result<(), Error>) {
        if net_ref.is_resolved() {
            Ok(())
        } else if self.hits < usize::MAX {
            self.hits = self.hits + 1;
            Ok(())
        } else {
            Err(Error::Other("too many references".to_string()))
        }
    }
}

/// The names that `refs` holds, each once, in the order of their first occurrence,
/// behind those of `found`.
pub open spec fn collect_names(found: Seq<Seq<char>>, refs: Seq<NetRefView>) -> Seq<Seq<char>>
    decreases refs.len(),
{
    if refs.len() == 0 {
        found
    } else if found.contains(refs[0].name) {
        collect_names(found, refs.skip(1))
    } else {
        collect_names(found.push(refs[0].name), refs.skip(1))
    }
}

/// The names of a list of strings.
pub open spec fn names_of(names: Seq<String>) -> Seq<Seq<char>> {
    Seq::new(names.len(), |i: int| names[i]@)
}

/// The visitor that collects the name of each reference.
pub struct GetDependencyVisitor {
    pub names: Vec<String>,
}

impl Visitor for GetDependencyVisitor {
    type State = Seq<Seq<char>>;

    open spec fn state(&self) -> Seq<Seq<char>> {
        names_of(self.names@)
    }

    open spec fn inv(&self) -> bool {
        true
    }

    open spec fn visited(state: Seq<Seq<char>>, net_ref: NetRefView) -> (Seq<Seq<char>>, NetRefView, bool) {
        if state.contains(net_ref.name) {
            (state, net_ref, true)
        } else {
            (state.push(net_ref.name), net_ref, true)
        }
    }

    open spec fn failure(state: Seq<Seq<char>>, net_ref: NetRefView, e: Error) -> bool {
        false
    }

    fn visit_net_ref(&mut self, net_ref: &mut NetRef) -> (r: Result<(), Error>) {
        if !contains_name(&self.names, net_ref.name()) {
            let ghost before = names_of(self.names@);
            self.names.push(net_ref.name().clone());
            assert(names_of(self.names@) =~= before.push(net_ref@.name));
        }
        Ok(())
    }
}

/// Whether `names` holds `name`.
pub fn contains_name(names: &Vec<String>, name: &String) -> (r: bool)
    ensures
        r == names_of(names@).contains(name@),
{
    let mut i: usize = 0;
    while i < names.len()
        invariant
            i <= names@.len(),
            forall|j: int| 0 <= j < i ==> names_of(names@)[j] != name@,
        decreases names@.len() - i,
    {
        if names[i] == *name {
            assert(names_of(names@)[i as int] == name@);
            return true;
        }
        i += 1;
    }
    false
}

/// The walk of the collecting visitor in closed form.
pub proof fn lemma_collect_walk(found: Seq<Seq<char>>, refs: Seq<NetRefView>)
    ensures
        walk::<GetDependencyVisitor>(found, refs) == (Walk {
            state: collect_names(found, refs),
            refs: refs,
            done: refs.len() as int,
        }),
    decreases refs.len(),
{
    let w = walk::<GetDependencyVisitor>(found, refs);
    if refs.len() > 0 {
        let rest = refs.skip(1);
        if found.contains(refs[0].name) {
            lemma_collect_walk(found, rest);
        } else {
            lemma_collect_walk(found.push(refs[0].name), rest);
        }
        assert(w.refs =~= refs);
    }
}

/// The collected names hold nothing twice, and hold exactly the names that
/// were found before or that some reference has.
pub proof fn lemma_collect_names(found: Seq<Seq<char>>, refs: Seq<NetRefView>)
    requires
        found.no_duplicates(),
    ensures
        collect_names(found, refs).no_duplicates(),
        forall|n: Seq<char>| #[trigger]
            collect_names(found, refs).contains(n) <==> (found.contains(n) || exists|i: int|
                0 <= i < refs.len() && (#[trigger] refs[i]).name == n),
    decreases refs.len(),
{
    if refs.len() > 0 {
        let rest = refs.skip(1);
        let next = if found.contains(refs[0].name) {
            found
        } else {
            found.push(refs[0].name)
        };
        assert(next.no_duplicates());
        lemma_collect_names(next, rest);
        assert forall|n: Seq<char>| #[trigger]
            collect_names(found, refs).contains(n) <==> (found.contains(n) || exists|i: int|
                0 <= i < refs.len() && (#[trigger] refs[i]).name == n) by {
            if collect_names(found, refs).contains(n) {
                if next.contains(n) {
                    if !found.contains(n) {
                        let j = choose|j: int| 0 <= j < next.len() && next[j] == n;
                        assert(n == refs[0].name);
                    }
                } else {
                    let i = choose|i: int| 0 <= i < rest.len() && (#[trigger] rest[i]).name == n;
                    assert(refs[i + 1].name == n);
                }
            }
            if found.contains(n) {
                let j = choose|j: int| 0 <= j < found.len() && found[j] == n;
                assert(next[j] == n);
            }
            if exists|i: int| 0 <= i < refs.len() && (#[trigger] refs[i]).name == n {
                let i = choose|i: int| 0 <= i < refs.len() && (#[trigger] refs[i]).name == n;
                if i == 0 {
                    if !found.contains(n) {
                        assert(next[found.len() as int] == n);
                    } else {
                        let j = choose|j: int| 0 <= j < found.len() && found[j] == n;
                        assert(next[j] == n);
                    }
                    assert(next.contains(n));
                } else {
                    assert(rest[i - 1].name == n);
                }
            }
        }
    }
}

/// The names that the references of `config` hold, each once, in the order in
/// which a walk first meets them. The configuration is left as it was.
pub fn get_dependency<C: Config>(config: &mut C) -> (r: Result<Vec<String>, Error>)
    ensures
        old(config).same_settings(final(config)),
        final(config).net_refs() == old(config).net_refs(),
        r matches Ok(names) && names_of(names@) == collect_names(Seq::empty(), old(config).net_refs()),
{
    let mut visitor = GetDependencyVisitor { names: Vec::new() };
    proof {
        assert(names_of(visitor.names@) =~= Seq::<Seq<char>>::empty());
        lemma_collect_walk(Seq::empty(), config.net_refs());
    }
    let ghost refs = config.net_refs();
    match config.visit(&mut visitor) {
        Ok(()) => Ok(visitor.names),
        Err(e) => {
            proof {
                lemma_full_walk_has_no_failure::<GetDependencyVisitor>(Seq::empty(), refs, e);
            }
            Err(e)
        },
    }
}

/// The number of references of `config` whose slot is empty: a walk with the
/// counting visitor, which leaves the configuration as it was. Fails only
/// where the references with an empty slot are more than a `usize` counts.
pub fn count_unresolved_refs<C: Config>(config: &mut C) -> (r: Result<usize, Error>)
    ensures
        old(config).same_settings(final(config)),
        final(config).net_refs() == old(config).net_refs(),
        r is Ok <==> count_unresolved(old(config).net_refs()) <= usize::MAX,
        match r {
            Ok(n) => n == count_unresolved(old(config).net_refs()),
            Err(e) => e is Other,
        },
{
    let mut visitor = UnresolvedVisitor { hits: 0 };
    let ghost refs = config.net_refs();
    proof {
        lemma_count_walk(0, refs);
    }
    match config.visit(&mut visitor) {
        Ok(()) => Ok(visitor.hits),
        Err(e) => {
            proof {
                lemma_count_failure(0, refs, e);
            }
            Err(e)
        },
    }
}

/// A counting walk leaves the references as they were. It visits them all
/// exactly where its count stays within a `usize`, and then it has added the
/// number of empty slots to its count.
pub proof fn lemma_count_walk(start: nat, refs: Seq<NetRefView>)
    requires
        start <= usize::MAX,
    ensures
        walk::<UnresolvedVisitor>(start, refs).refs == refs,
        walk::<UnresolvedVisitor>(start, refs).done == refs.len() <==> start + count_unresolved(refs) <= usize::MAX,
        walk::<UnresolvedVisitor>(start, refs).done == refs.len() ==> walk::<UnresolvedVisitor>(start, refs).state
            == start + count_unresolved(refs),
    decreases refs.len(),
{
    let w = walk::<UnresolvedVisitor>(start, refs);
    if refs.len() > 0 {
        let rest = refs.skip(1);
        let (s1, r1, ok) = UnresolvedVisitor::visited(start, refs[0]);
        lemma_walk_len::<UnresolvedVisitor>(s1, rest);
        lemma_count_walk(s1, rest);
        assert(w.refs =~= refs);
    }
}

/// A counting walk fails with no other error than that of its visitor.
pub proof fn lemma_count_failure(start: nat, refs: Seq<NetRefView>, e: Error)
    requires
        walk_fails_with::<UnresolvedVisitor>(start, refs, e),
    ensures
        e is Other,
    decreases refs.len(),
{
    if refs.len() > 0 {
        let (s1, r1, ok) = UnresolvedVisitor::visited(start, refs[0]);
        if ok {
            lemma_count_failure(s1, refs.skip(1), e);
        }
    }
}

} // verus!

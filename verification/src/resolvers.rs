use vstd::prelude::*;
use crate::uri::{Uri, UriV};
use crate::error::{WrapError, ErrV};
use crate::context::{
    UriPackageOrWrapper, UpowV, UriResolutionContext, CtxV, StepV, UriResolutionStep, res_view,
    clone_result, uris_view,
};

verus! {

/// Resolves one URI to another: asked for `from`, it answers `Uri(to)`;
/// asked for anything else, it answers the not-found sentinel.
pub struct RedirectResolver {
    pub from: Uri,
    pub to: Uri,
}

/// Resolves URIs from a fixed table; the first matching entry wins.
pub struct StaticResolver {
    pub entries: Vec<(Uri, UriPackageOrWrapper)>,
}

/// A leaf resolver: one without children of its own.
pub enum LeafResolver {
    Redirect(RedirectResolver),
    Static(StaticResolver),
}

/// Tries an ordered list of leaf resolvers; the first answer that is not the
/// not-found sentinel wins.
pub struct UriResolverAggregator {
    pub resolvers: Vec<LeafResolver>,
}

/// Wraps a resolver with a cache of successful results, keyed by URI.
pub struct ResolutionResultCacheResolver {
    pub resolver: Box<Resolver>,
    pub cache: Vec<(Uri, UriPackageOrWrapper)>,
}

/// A resolver tree: leaves, an aggregator of leaves, the recursion driver,
/// and the result cache.
pub enum Resolver {
    Redirect(RedirectResolver),
    Static(StaticResolver),
    Aggregator(UriResolverAggregator),
    Recursive(Box<Resolver>),
    Cache(ResolutionResultCacheResolver),
}

/// Mathematical value of a [`LeafResolver`].
#[verifier::ext_equal]
pub enum LeafV {
    Redirect(UriV, UriV),
    Static(Seq<(UriV, UpowV)>),
}

/// Mathematical value of a [`Resolver`].
#[verifier::ext_equal]
pub enum ResolverV {
    Redirect(UriV, UriV),
    Static(Seq<(UriV, UpowV)>),
    Aggregator(Seq<LeafV>),
    Recursive(Box<ResolverV>),
    Cache(Box<ResolverV>, Seq<(UriV, UpowV)>),
}

/// The values of a table of URI-keyed entries.
pub open spec fn entries_view(s: Seq<(Uri, UriPackageOrWrapper)>) -> Seq<(UriV, UpowV)> {
    Seq::new(s.len(), |i: int| (s[i].0@, s[i].1@))
}

impl View for LeafResolver {
    type V = LeafV;

    open spec fn view(&self) -> LeafV {
        match self {
            LeafResolver::Redirect(r) => LeafV::Redirect(r.from@, r.to@),
            LeafResolver::Static(s) => LeafV::Static(entries_view(s.entries@)),
        }
    }
}

/// Mathematical value of a resolver tree.
pub open spec fn resolver_view(r: Resolver) -> ResolverV
    decreases r,
{
    match r {
        Resolver::Redirect(rr) => ResolverV::Redirect(rr.from@, rr.to@),
        Resolver::Static(s) => ResolverV::Static(entries_view(s.entries@)),
        Resolver::Aggregator(a) => ResolverV::Aggregator(
            Seq::new(a.resolvers@.len(), |i: int| a.resolvers@[i]@),
        ),
        Resolver::Recursive(inner) => ResolverV::Recursive(Box::new(resolver_view(*inner))),
        Resolver::Cache(c) => ResolverV::Cache(
            Box::new(resolver_view(*c.resolver)),
            entries_view(c.cache@),
        ),
    }
}

impl View for Resolver {
    type V = ResolverV;

    open spec fn view(&self) -> ResolverV {
        resolver_view(*self)
    }
}

/// The first value a table holds under `uri`, as a resolution result; the
/// not-found sentinel if there is none.
pub open spec fn static_lookup(entries: Seq<(UriV, UpowV)>, uri: UriV) -> Result<UpowV, ErrV>
    decreases entries.len(),
{
    if entries.len() == 0 {
        Err(ErrV::NotFound)
    } else if entries[0].0 == uri {
        Ok(entries[0].1)
    } else {
        static_lookup(entries.drop_first(), uri)
    }
}

/// The first value a cache holds under `uri`, if any.
pub open spec fn cache_lookup(entries: Seq<(UriV, UpowV)>, uri: UriV) -> Option<UpowV>
    decreases entries.len(),
{
    if entries.len() == 0 {
        None
    } else if entries[0].0 == uri {
        Some(entries[0].1)
    } else {
        cache_lookup(entries.drop_first(), uri)
    }
}

/// What a leaf resolver answers for `uri`.
pub open spec fn leaf_result(l: LeafV, uri: UriV) -> Result<UpowV, ErrV> {
    match l {
        LeafV::Redirect(from, to) => if uri == from {
            Ok(UpowV::Uri(to))
        } else {
            Err(ErrV::NotFound)
        },
        LeafV::Static(es) => static_lookup(es, uri),
    }
}

/// What an ordered list of leaf resolvers answers for `uri`: the first
/// answer that is not the not-found sentinel, else that sentinel.
pub open spec fn agg_result(children: Seq<LeafV>, uri: UriV) -> Result<UpowV, ErrV>
    decreases children.len(),
{
    if children.len() == 0 {
        Err(ErrV::NotFound)
    } else if leaf_result(children[0], uri) != Err::<UpowV, ErrV>(ErrV::NotFound) {
        leaf_result(children[0], uri)
    } else {
        agg_result(children.drop_first(), uri)
    }
}

/// The URIs a table can answer with (its `Uri`-variant values).
pub open spec fn entries_uri_outputs(es: Seq<(UriV, UpowV)>) -> Set<UriV>
    decreases es.len(),
{
    if es.len() == 0 {
        Set::empty()
    } else {
        entries_uri_outputs(es.drop_first()).union(
            match es[0].1 {
                UpowV::Uri(u) => Set::empty().insert(u),
                _ => Set::empty(),
            },
        )
    }
}

/// The URIs a leaf resolver can answer with.
pub open spec fn leaf_uri_outputs(l: LeafV) -> Set<UriV> {
    match l {
        LeafV::Redirect(from, to) => Set::empty().insert(to),
        LeafV::Static(es) => entries_uri_outputs(es),
    }
}

/// The URIs a list of leaf resolvers can answer with.
pub open spec fn leaves_uri_outputs(ls: Seq<LeafV>) -> Set<UriV>
    decreases ls.len(),
{
    if ls.len() == 0 {
        Set::empty()
    } else {
        leaves_uri_outputs(ls.drop_first()).union(leaf_uri_outputs(ls[0]))
    }
}

/// The URIs a resolver tree can answer with: every `Uri`-variant value in
/// its tables and caches.  A resolution chain can only pass through these,
/// which bounds its length.
pub open spec fn uri_outputs(r: ResolverV) -> Set<UriV>
    decreases r,
{
    match r {
        ResolverV::Redirect(from, to) => Set::empty().insert(to),
        ResolverV::Static(es) => entries_uri_outputs(es),
        ResolverV::Aggregator(ls) => leaves_uri_outputs(ls),
        ResolverV::Recursive(inner) => uri_outputs(*inner),
        ResolverV::Cache(inner, es) => uri_outputs(*inner).union(entries_uri_outputs(es)),
    }
}

/// The nesting depth of a resolver tree; resolution only mutates caches, so
/// it never changes.
pub open spec fn height(r: ResolverV) -> nat
    decreases r,
{
    match r {
        ResolverV::Recursive(inner) => height(*inner) + 1,
        ResolverV::Cache(inner, es) => height(*inner) + 1,
        _ => 0,
    }
}

/// A table's output set is finite.
pub proof fn lemma_entries_uri_outputs_finite(es: Seq<(UriV, UpowV)>)
    ensures
        entries_uri_outputs(es).finite(),
    decreases es.len(),
{
    if es.len() > 0 {
        lemma_entries_uri_outputs_finite(es.drop_first());
    }
}

/// A leaf list's output set is finite.
pub proof fn lemma_leaves_uri_outputs_finite(ls: Seq<LeafV>)
    ensures
        leaves_uri_outputs(ls).finite(),
    decreases ls.len(),
{
    if ls.len() > 0 {
        lemma_leaves_uri_outputs_finite(ls.drop_first());
        match ls[0] {
            LeafV::Redirect(from, to) => {},
            LeafV::Static(es) => lemma_entries_uri_outputs_finite(es),
        }
    }
}

/// A resolver tree's output set is finite.
pub proof fn lemma_uri_outputs_finite(r: ResolverV)
    ensures
        uri_outputs(r).finite(),
    decreases r,
{
    match r {
        ResolverV::Redirect(from, to) => {},
        ResolverV::Static(es) => lemma_entries_uri_outputs_finite(es),
        ResolverV::Aggregator(ls) => lemma_leaves_uri_outputs_finite(ls),
        ResolverV::Recursive(inner) => lemma_uri_outputs_finite(*inner),
        ResolverV::Cache(inner, es) => {
            lemma_uri_outputs_finite(*inner);
            lemma_entries_uri_outputs_finite(es);
        },
    }
}

/// A `Uri` answer from a table is in the table's output set.
pub proof fn lemma_static_lookup_output(es: Seq<(UriV, UpowV)>, uri: UriV, next: UriV)
    requires
        static_lookup(es, uri) == Ok::<UpowV, ErrV>(UpowV::Uri(next)),
    ensures
        entries_uri_outputs(es).contains(next),
    decreases es.len(),
{
    if es.len() > 0 {
        if es[0].0 == uri {
        } else {
            lemma_static_lookup_output(es.drop_first(), uri, next);
        }
    }
}

/// A `Uri` answer from a cache is in the cache's output set.
pub proof fn lemma_cache_lookup_output(es: Seq<(UriV, UpowV)>, uri: UriV, next: UriV)
    requires
        cache_lookup(es, uri) == Some(UpowV::Uri(next)),
    ensures
        entries_uri_outputs(es).contains(next),
    decreases es.len(),
{
    if es.len() > 0 {
        if es[0].0 == uri {
        } else {
            lemma_cache_lookup_output(es.drop_first(), uri, next);
        }
    }
}

/// A `Uri` answer from a leaf list is in its output set.
pub proof fn lemma_agg_result_output(ls: Seq<LeafV>, uri: UriV, next: UriV)
    requires
        agg_result(ls, uri) == Ok::<UpowV, ErrV>(UpowV::Uri(next)),
    ensures
        leaves_uri_outputs(ls).contains(next),
    decreases ls.len(),
{
    if ls.len() > 0 {
        if leaf_result(ls[0], uri) != Err::<UpowV, ErrV>(ErrV::NotFound) {
            match ls[0] {
                LeafV::Redirect(from, to) => {},
                LeafV::Static(es) => lemma_static_lookup_output(es, uri, next),
            }
        } else {
            lemma_agg_result_output(ls.drop_first(), uri, next);
        }
    }
}

/// The context after marking `uri` in flight and on the path.
pub open spec fn ctx_visited(c: CtxV, uri: UriV) -> CtxV {
    CtxV { visited: c.visited.push(uri), path: c.path.push(uri), history: c.history }
}

/// The context `c`, with its in-flight set wound back to that of `c0`.
pub open spec fn ctx_restore(c: CtxV, c0: CtxV) -> CtxV {
    CtxV { visited: c0.visited, path: c.path, history: c.history }
}

/// A sub-history context: the in-flight set and path of `c`, a fresh history.
pub open spec fn ctx_sub(c: CtxV) -> CtxV {
    CtxV { visited: c.visited, path: c.path, history: Seq::empty() }
}

/// `cpost` is `cpre` with the step `s` appended to the history.
pub open spec fn ctx_pushed(cpre: CtxV, cpost: CtxV, s: StepV) -> bool {
    &&& cpost.visited == cpre.visited
    &&& cpost.path == cpre.path
    &&& cpost.history == cpre.history.push(s)
}

/// The table after writing `v` under `u`: the first entry keyed `u` is
/// replaced, or a new entry is appended.
pub open spec fn cache_set_spec(es: Seq<(UriV, UpowV)>, u: UriV, v: UpowV) -> Seq<(UriV, UpowV)>
    decreases es.len(),
{
    if es.len() == 0 {
        seq![(u, v)]
    } else if es[0].0 == u {
        seq![(u, v)] + es.drop_first()
    } else {
        seq![es[0]] + cache_set_spec(es.drop_first(), u, v)
    }
}

/// The table after writing `v` under every URI of `path`, in order.
pub open spec fn cache_extended(es: Seq<(UriV, UpowV)>, path: Seq<UriV>, v: UpowV) -> Seq<
    (UriV, UpowV),
>
    decreases path.len(),
{
    if path.len() == 0 {
        es
    } else {
        cache_extended(cache_set_spec(es, path[0], v), path.drop_first(), v)
    }
}

/// After a write, the written key answers the written value and every other
/// key answers as before.
pub proof fn lemma_cache_set_lookup(es: Seq<(UriV, UpowV)>, u: UriV, v: UpowV, q: UriV)
    ensures
        cache_lookup(cache_set_spec(es, u, v), q) == (if q == u {
            Some(v)
        } else {
            cache_lookup(es, q)
        }),
    decreases es.len(),
{
    if es.len() == 0 {
        assert(cache_set_spec(es, u, v) =~= seq![(u, v)]);
        assert(cache_set_spec(es, u, v).drop_first() =~= Seq::<(UriV, UpowV)>::empty());
    } else if es[0].0 == u {
        let r = cache_set_spec(es, u, v);
        assert(r[0] == (u, v));
        assert(r.drop_first() =~= es.drop_first());
    } else {
        let r = cache_set_spec(es, u, v);
        assert(r[0] == es[0]);
        assert(r.drop_first() =~= cache_set_spec(es.drop_first(), u, v));
        lemma_cache_set_lookup(es.drop_first(), u, v, q);
    }
}

/// After writing a path, every URI of the path answers the written value and
/// every other URI answers as before.
pub proof fn lemma_cache_extended_lookup(
    es: Seq<(UriV, UpowV)>,
    path: Seq<UriV>,
    v: UpowV,
    q: UriV,
)
    ensures
        cache_lookup(cache_extended(es, path, v), q) == (if path.contains(q) {
            Some(v)
        } else {
            cache_lookup(es, q)
        }),
    decreases path.len(),
{
    if path.len() == 0 {
    } else {
        let es1 = cache_set_spec(es, path[0], v);
        lemma_cache_extended_lookup(es1, path.drop_first(), v, q);
        lemma_cache_set_lookup(es, path[0], v, q);
        if path.contains(q) && !path.drop_first().contains(q) {
            let i = choose|i: int| 0 <= i < path.len() && path[i] == q;
            if i > 0 {
                assert(path.drop_first()[i - 1] == q);
            }
        }
        if path.drop_first().contains(q) {
            let i = choose|i: int| 0 <= i < path.drop_first().len() && path.drop_first()[i] == q;
            assert(path[i + 1] == q);
        }
    }
}

/// A table's output set holds exactly the URIs among its values.
pub proof fn lemma_entries_uri_outputs_contains(es: Seq<(UriV, UpowV)>, x: UriV)
    ensures
        entries_uri_outputs(es).contains(x) <==> exists|i: int|
            0 <= i < es.len() && #[trigger] es[i].1 == UpowV::Uri(x),
    decreases es.len(),
{
    if es.len() > 0 {
        let tail = es.drop_first();
        lemma_entries_uri_outputs_contains(tail, x);
        if entries_uri_outputs(es).contains(x) {
            if entries_uri_outputs(tail).contains(x) {
                let i = choose|i: int| 0 <= i < tail.len() && #[trigger] tail[i].1 == UpowV::Uri(x);
                assert(es[i + 1].1 == UpowV::Uri(x));
            } else {
                assert(es[0].1 == UpowV::Uri(x));
            }
        }
        if exists|i: int| 0 <= i < es.len() && #[trigger] es[i].1 == UpowV::Uri(x) {
            let i = choose|i: int| 0 <= i < es.len() && #[trigger] es[i].1 == UpowV::Uri(x);
            if i == 0 {
                assert(entries_uri_outputs(es).contains(x));
            } else {
                assert(tail[i - 1].1 == UpowV::Uri(x));
                assert(entries_uri_outputs(tail).contains(x));
            }
        }
    }
}

/// Every entry of a written table is the written pair or an old entry.
pub proof fn lemma_cache_set_elements(es: Seq<(UriV, UpowV)>, u: UriV, v: UpowV)
    ensures
        es.len() <= cache_set_spec(es, u, v).len() <= es.len() + 1,
        forall|i: int|
            0 <= i < cache_set_spec(es, u, v).len() ==> (#[trigger] cache_set_spec(es, u, v)[i] == (
            u,
            v,
            ) || (0 <= i < es.len() && cache_set_spec(es, u, v)[i] == es[i])),
    decreases es.len(),
{
    let r = cache_set_spec(es, u, v);
    if es.len() == 0 {
        assert(r[0] == (u, v));
    } else if es[0].0 == u {
        assert forall|i: int| 0 <= i < r.len() implies (#[trigger] r[i] == (u, v) || (0 <= i
            < es.len() && r[i] == es[i])) by {
            if i > 0 {
                assert(r[i] == es.drop_first()[i - 1]);
                assert(es.drop_first()[i - 1] == es[i]);
            } else {
                assert(r[0] == (u, v));
            }
        }
    } else {
        lemma_cache_set_elements(es.drop_first(), u, v);
        let rt = cache_set_spec(es.drop_first(), u, v);
        assert forall|i: int| 0 <= i < r.len() implies (#[trigger] r[i] == (u, v) || (0 <= i
            < es.len() && r[i] == es[i])) by {
            if i == 0 {
                assert(r[0] == es[0]);
            } else {
                assert(r[i] == rt[i - 1]);
                if rt[i - 1] == (u, v) {
                } else {
                    assert(rt[i - 1] == es.drop_first()[i - 1]);
                    assert(es.drop_first()[i - 1] == es[i]);
                }
            }
        }
    }
}

/// A write keeps the table's output URIs within the old ones and the written
/// value's URI.
pub proof fn lemma_cache_set_outputs(es: Seq<(UriV, UpowV)>, u: UriV, v: UpowV)
    ensures
        entries_uri_outputs(cache_set_spec(es, u, v)).subset_of(
            entries_uri_outputs(es).union(
                match v {
                    UpowV::Uri(n) => Set::empty().insert(n),
                    _ => Set::<UriV>::empty(),
                },
            ),
        ),
{
    let r = cache_set_spec(es, u, v);
    let vset = (match v {
        UpowV::Uri(n) => Set::empty().insert(n),
        _ => Set::<UriV>::empty(),
    });
    lemma_cache_set_elements(es, u, v);
    assert forall|x: UriV| entries_uri_outputs(r).contains(x) implies entries_uri_outputs(
        es,
    ).union(vset).contains(x) by {
        lemma_entries_uri_outputs_contains(r, x);
        lemma_entries_uri_outputs_contains(es, x);
        let i = choose|i: int| 0 <= i < r.len() && #[trigger] r[i].1 == UpowV::Uri(x);
        if r[i] == (u, v) {
            assert(vset.contains(x));
        } else {
            assert(es[i].1 == UpowV::Uri(x));
        }
    }
}

/// Writing a path keeps the table's output URIs within the old ones and the
/// written value's URI.
pub proof fn lemma_cache_extended_outputs(es: Seq<(UriV, UpowV)>, path: Seq<UriV>, v: UpowV)
    ensures
        entries_uri_outputs(cache_extended(es, path, v)).subset_of(
            entries_uri_outputs(es).union(
                match v {
                    UpowV::Uri(n) => Set::empty().insert(n),
                    _ => Set::<UriV>::empty(),
                },
            ),
        ),
    decreases path.len(),
{
    if path.len() == 0 {
    } else {
        let es1 = cache_set_spec(es, path[0], v);
        lemma_cache_set_outputs(es, path[0], v);
        lemma_cache_extended_outputs(es1, path.drop_first(), v);
    }
}

/// History grows only by appending: `cpre`'s history is a prefix of
/// `cpost`'s.
pub open spec fn history_preserved(cpre: CtxV, cpost: CtxV) -> bool {
    &&& cpost.history.len() >= cpre.history.len()
    &&& cpost.history.subrange(0, cpre.history.len() as int) == cpre.history
}

/// Some step appended between `cpre` and `cpost` records `uri` as its
/// source.
pub open spec fn history_has_source(cpre: CtxV, cpost: CtxV, uri: UriV) -> bool {
    exists|k: int|
        cpre.history.len() <= k < cpost.history.len() && #[trigger] cpost.history[k].source_uri
            == uri
}

/// Always true; serves as a quantifier trigger for chosen witnesses.
pub open spec fn witness<A>(x: A) -> bool {
    true
}

/// One possible step of the recursion driver's arm: `post` wraps `ipost`
/// and the chain relation links them.
pub open spec fn recursive_arm(
    inner: ResolverV,
    ipost: ResolverV,
    post: ResolverV,
    uri: UriV,
    r: Result<UpowV, ErrV>,
    cpre: CtxV,
    cpost: CtxV,
    fuel: nat,
) -> bool
    decreases fuel, 4nat,
{
    &&& post == ResolverV::Recursive(Box::new(ipost))
    &&& chain_post_f(inner, ipost, uri, r, cpre, cpost, fuel)
}

/// One possible run of the cache's miss arm: the inner resolver ran on a
/// sub-history context, a successful result was written under every URI of
/// the sub-context's path, and one composite step carrying the sub-history
/// was appended.
pub open spec fn cache_miss_arm(
    inner: ResolverV,
    es: Seq<(UriV, UpowV)>,
    ipost: ResolverV,
    csub: CtxV,
    post: ResolverV,
    uri: UriV,
    r: Result<UpowV, ErrV>,
    cpre: CtxV,
    cpost: CtxV,
    fuel: nat,
) -> bool
    decreases fuel, 4nat,
{
    &&& resolve_post_f(inner, ipost, uri, r, ctx_sub(cpre), csub, fuel)
    &&& post == ResolverV::Cache(
        Box::new(ipost),
        if r is Ok {
            cache_extended(es, csub.path, r->Ok_0)
        } else {
            es
        },
    )
    &&& exists|s: StepV|
        #[trigger] ctx_pushed(cpre, cpost, s) && s.source_uri == uri && s.result == r
            && s.sub_history == Some(csub.history) && s.description == Some(
            "ResolutionResultCacheResolver"@,
        )
}

/// The resolution relation, bounded by `fuel`: how one `try_resolve_uri`
/// call relates the resolver and context before and after to the result.
pub open spec fn resolve_post_f(
    pre: ResolverV,
    post: ResolverV,
    uri: UriV,
    r: Result<UpowV, ErrV>,
    cpre: CtxV,
    cpost: CtxV,
    fuel: nat,
) -> bool
    decreases fuel, 0nat,
{
    match pre {
        ResolverV::Redirect(from, to) => {
            &&& post == pre
            &&& r == leaf_result(LeafV::Redirect(from, to), uri)
            &&& exists|s: StepV|
                #[trigger] ctx_pushed(cpre, cpost, s) && s.source_uri == uri && s.result == r
                    && s.sub_history is None && s.description == Some("RedirectResolver"@)
        },
        ResolverV::Static(es) => {
            &&& post == pre
            &&& r == static_lookup(es, uri)
            &&& exists|s: StepV|
                #[trigger] ctx_pushed(cpre, cpost, s) && s.source_uri == uri && s.result == r
                    && s.sub_history is None && s.description == Some("StaticResolver"@)
        },
        ResolverV::Aggregator(ls) => {
            &&& post == pre
            &&& r == agg_result(ls, uri)
            &&& exists|s: StepV|
                #[trigger] ctx_pushed(cpre, cpost, s) && s.source_uri == uri && s.result == r
                    && s.sub_history is Some && s.description == Some("UriResolverAggregator"@)
        },
        ResolverV::Recursive(inner) => {
            &&& fuel > 0
            &&& exists|ipost: ResolverV|
                #[trigger] witness(ipost) && recursive_arm(
                    *inner,
                    ipost,
                    post,
                    uri,
                    r,
                    cpre,
                    cpost,
                    (fuel - 1) as nat,
                )
        },
        ResolverV::Cache(inner, es) => {
            match cache_lookup(es, uri) {
                Some(v) => {
                    &&& post == pre
                    &&& r == Ok::<UpowV, ErrV>(v)
                    &&& exists|s: StepV|
                        #[trigger] ctx_pushed(cpre, cpost, s) && s.source_uri == uri && s.result
                            == r && s.sub_history is None && s.description == Some(
                            "ResolutionResultCacheResolver (Cache)"@,
                        )
                },
                None => {
                    &&& fuel > 0
                    &&& exists|ipost: ResolverV, csub: CtxV|
                        #[trigger] witness((ipost, csub)) && cache_miss_arm(
                            *inner,
                            es,
                            ipost,
                            csub,
                            post,
                            uri,
                            r,
                            cpre,
                            cpost,
                            (fuel - 1) as nat,
                        )
                },
            }
        },
    }
}

/// The continuation of a chain after a `Uri` answer: the rest of the chain
/// runs, and the in-flight set is wound back at the end.
pub open spec fn chain_cont(
    imid: ResolverV,
    ipost: ResolverV,
    next: UriV,
    r: Result<UpowV, ErrV>,
    cmid: CtxV,
    cpre: CtxV,
    cpost: CtxV,
    fuel: nat,
) -> bool
    decreases fuel, 2nat,
{
    exists|cfin: CtxV|
        #[trigger] witness(cfin) && chain_post_f(imid, ipost, next, r, cmid, cfin, fuel) && cpost
            == ctx_restore(cfin, cpre)
}

/// One possible step of a chain: the inner resolver answers `r1` for `uri`,
/// and the chain either continues at a new URI or stops here.
pub open spec fn chain_arm(
    ipre: ResolverV,
    ipost: ResolverV,
    uri: UriV,
    r: Result<UpowV, ErrV>,
    cpre: CtxV,
    cpost: CtxV,
    r1: Result<UpowV, ErrV>,
    imid: ResolverV,
    cmid: CtxV,
    fuel: nat,
) -> bool
    decreases fuel, 3nat,
{
    &&& resolve_post_f(ipre, imid, uri, r1, ctx_visited(cpre, uri), cmid, fuel)
    &&& match r1 {
        Ok(UpowV::Uri(next)) => if next != uri {
            chain_cont(imid, ipost, next, r, cmid, cpre, cpost, fuel)
        } else {
            r == r1 && ipost == imid && cpost == ctx_restore(cmid, cpre)
        },
        _ => r == r1 && ipost == imid && cpost == ctx_restore(cmid, cpre),
    }
}

/// The recursion driver's relation, bounded by `fuel`: resolving `uri`
/// through `ipre`, then following `Uri` answers through the same resolver
/// until a terminal answer, a fixed point, or a cycle.
pub open spec fn chain_post_f(
    ipre: ResolverV,
    ipost: ResolverV,
    uri: UriV,
    r: Result<UpowV, ErrV>,
    cpre: CtxV,
    cpost: CtxV,
    fuel: nat,
) -> bool
    decreases fuel, 1nat,
{
    if cpre.visited.contains(uri) {
        &&& r == Err::<UpowV, ErrV>(ErrV::InfiniteLoop(uri))
        &&& ipost == ipre
        &&& cpost == cpre
    } else {
        &&& fuel > 0
        &&& exists|r1: Result<UpowV, ErrV>, imid: ResolverV, cmid: CtxV|
            #[trigger] witness((r1, imid, cmid)) && chain_arm(
                ipre,
                ipost,
                uri,
                r,
                cpre,
                cpost,
                r1,
                imid,
                cmid,
                (fuel - 1) as nat,
            )
    }
}

/// The resolution relation: `resolve_post_f` for some bound.
pub open spec fn resolve_post(
    pre: ResolverV,
    post: ResolverV,
    uri: UriV,
    r: Result<UpowV, ErrV>,
    cpre: CtxV,
    cpost: CtxV,
) -> bool {
    exists|fuel: nat| #[trigger] witness(fuel) && resolve_post_f(pre, post, uri, r, cpre, cpost, fuel)
}

/// A relation that holds at one bound holds at any larger bound.
pub proof fn lemma_resolve_post_mono(
    pre: ResolverV,
    post: ResolverV,
    uri: UriV,
    r: Result<UpowV, ErrV>,
    cpre: CtxV,
    cpost: CtxV,
    fuel1: nat,
    fuel2: nat,
)
    requires
        resolve_post_f(pre, post, uri, r, cpre, cpost, fuel1),
        fuel1 <= fuel2,
    ensures
        resolve_post_f(pre, post, uri, r, cpre, cpost, fuel2),
    decreases fuel2, 5nat,
{
    match pre {
        ResolverV::Recursive(inner) => {
            let ipost = choose|ipost: ResolverV|
                #[trigger] witness(ipost) && recursive_arm(
                    *inner,
                    ipost,
                    post,
                    uri,
                    r,
                    cpre,
                    cpost,
                    (fuel1 - 1) as nat,
                );
            lemma_chain_post_mono(
                *inner,
                ipost,
                uri,
                r,
                cpre,
                cpost,
                (fuel1 - 1) as nat,
                (fuel2 - 1) as nat,
            );
            assert(witness(ipost) && recursive_arm(
                *inner,
                ipost,
                post,
                uri,
                r,
                cpre,
                cpost,
                (fuel2 - 1) as nat,
            ));
        },
        ResolverV::Cache(inner, es) => {
            match cache_lookup(es, uri) {
                Some(v) => {},
                None => {
                    let (ipost, csub) = choose|ipost: ResolverV, csub: CtxV|
                        #[trigger] witness((ipost, csub)) && cache_miss_arm(
                            *inner,
                            es,
                            ipost,
                            csub,
                            post,
                            uri,
                            r,
                            cpre,
                            cpost,
                            (fuel1 - 1) as nat,
                        );
                    lemma_resolve_post_mono(
                        *inner,
                        ipost,
                        uri,
                        r,
                        ctx_sub(cpre),
                        csub,
                        (fuel1 - 1) as nat,
                        (fuel2 - 1) as nat,
                    );
                    assert(witness((ipost, csub)) && cache_miss_arm(
                        *inner,
                        es,
                        ipost,
                        csub,
                        post,
                        uri,
                        r,
                        cpre,
                        cpost,
                        (fuel2 - 1) as nat,
                    ));
                },
            }
        },
        _ => {},
    }
}

/// A chain relation that holds at one bound holds at any larger bound.
pub proof fn lemma_chain_post_mono(
    ipre: ResolverV,
    ipost: ResolverV,
    uri: UriV,
    r: Result<UpowV, ErrV>,
    cpre: CtxV,
    cpost: CtxV,
    fuel1: nat,
    fuel2: nat,
)
    requires
        chain_post_f(ipre, ipost, uri, r, cpre, cpost, fuel1),
        fuel1 <= fuel2,
    ensures
        chain_post_f(ipre, ipost, uri, r, cpre, cpost, fuel2),
    decreases fuel2, 6nat,
{
    if cpre.visited.contains(uri) {
    } else {
        let (r1, imid, cmid) = choose|r1: Result<UpowV, ErrV>, imid: ResolverV, cmid: CtxV|
            #[trigger] witness((r1, imid, cmid)) && chain_arm(
                ipre,
                ipost,
                uri,
                r,
                cpre,
                cpost,
                r1,
                imid,
                cmid,
                (fuel1 - 1) as nat,
            );
        lemma_resolve_post_mono(
            ipre,
            imid,
            uri,
            r1,
            ctx_visited(cpre, uri),
            cmid,
            (fuel1 - 1) as nat,
            (fuel2 - 1) as nat,
        );
        match r1 {
            Ok(UpowV::Uri(next)) => {
                if next != uri {
                    let cfin = choose|cfin: CtxV|
                        #[trigger] witness(cfin) && chain_post_f(
                            imid,
                            ipost,
                            next,
                            r,
                            cmid,
                            cfin,
                            (fuel1 - 1) as nat,
                        ) && cpost == ctx_restore(cfin, cpre);
                    lemma_chain_post_mono(
                        imid,
                        ipost,
                        next,
                        r,
                        cmid,
                        cfin,
                        (fuel1 - 1) as nat,
                        (fuel2 - 1) as nat,
                    );
                    assert(witness(cfin) && chain_post_f(
                        imid,
                        ipost,
                        next,
                        r,
                        cmid,
                        cfin,
                        (fuel2 - 1) as nat,
                    ) && cpost == ctx_restore(cfin, cpre));
                    assert(chain_cont(imid, ipost, next, r, cmid, cpre, cpost, (fuel2 - 1) as nat));
                }
            },
            _ => {},
        }
        assert(witness((r1, imid, cmid)) && chain_arm(
            ipre,
            ipost,
            uri,
            r,
            cpre,
            cpost,
            r1,
            imid,
            cmid,
            (fuel2 - 1) as nat,
        ));
    }
}

/// The measure that bounds a resolution chain: how many answerable URIs are
/// not yet in flight, plus one if the current URI is not answerable.
pub open spec fn chain_measure(o: Set<UriV>, visited: Seq<UriV>, uri: UriV) -> nat {
    o.difference(visited.to_set()).len() + (if o.contains(uri) {
        0nat
    } else {
        1nat
    })
}

/// Following an answered URI strictly shrinks the chain measure.
pub proof fn lemma_chain_measure_decreases(
    o2: Set<UriV>,
    o: Set<UriV>,
    vis: Seq<UriV>,
    uri: UriV,
    next: UriV,
)
    requires
        o2.subset_of(o),
        o.finite(),
        !vis.contains(uri),
        o2.contains(next),
    ensures
        chain_measure(o2, vis.push(uri), next) < chain_measure(o, vis, uri),
{
    broadcast use vstd::set::group_set_axioms;
    broadcast use vstd::seq_lib::seq_to_set_is_finite;

    let a = o.difference(vis.to_set());
    let a2 = o2.difference(vis.push(uri).to_set());
    assert(vis.push(uri).to_set() =~= vis.to_set().insert(uri)) by {
        assert forall|x: UriV| #[trigger] vis.push(uri).contains(x) implies vis.contains(x) || x
            == uri by {
            let i = choose|i: int| 0 <= i < vis.push(uri).len() && vis.push(uri)[i] == x;
            if i < vis.len() {
                assert(vis[i] == x);
            }
        }
        assert forall|x: UriV| vis.contains(x) implies #[trigger] vis.push(uri).contains(x) by {
            let i = choose|i: int| 0 <= i < vis.len() && vis[i] == x;
            assert(vis.push(uri)[i] == x);
        }
        assert(vis.push(uri)[vis.len() as int] == uri);
        assert(vis.push(uri).contains(uri));
    }
    vstd::set_lib::lemma_len_subset(a, o);
    if o.contains(uri) {
        assert(a.contains(uri));
        assert(a2.subset_of(a.remove(uri)));
        vstd::set_lib::lemma_len_subset(a2, a.remove(uri));
        assert(a.remove(uri).len() + 1 == a.len());
    } else {
        assert(a2.subset_of(a));
        vstd::set_lib::lemma_len_subset(a2, a);
    }
}

/// Prefix preservation composes.
pub proof fn lemma_history_preserved_trans(a: CtxV, b: CtxV, c: CtxV)
    requires
        history_preserved(a, b),
        history_preserved(b, c),
    ensures
        history_preserved(a, c),
{
    assert(c.history.subrange(0, a.history.len() as int) =~= b.history.subrange(
        0,
        b.history.len() as int,
    ).subrange(0, a.history.len() as int));
    assert(b.history.subrange(0, b.history.len() as int) =~= b.history);
}

/// A recorded source survives later appends.
pub proof fn lemma_history_has_source_trans(a: CtxV, b: CtxV, c: CtxV, uri: UriV)
    requires
        history_has_source(a, b, uri),
        history_preserved(b, c),
    ensures
        history_has_source(a, c, uri),
{
    let k = choose|k: int|
        a.history.len() <= k < b.history.len() && #[trigger] b.history[k].source_uri == uri;
    assert(c.history.subrange(0, b.history.len() as int)[k] == c.history[k]);
    assert(c.history[k].source_uri == uri);
}

/// A resolver whose answers are recorded as one history step each.
pub trait ResolverWithHistory {
    /// What this resolver answers for `uri`.
    spec fn resolved(&self, uri: UriV) -> Result<UpowV, ErrV>;

    /// The description this resolver records with each step.
    spec fn step_description(&self) -> Seq<char>;

    /// A short description of this resolver for the history.
    fn get_step_description(&self, uri: &Uri) -> (r: Vec<char>)
        ensures
            r@ == self.step_description(),
    ;

    /// Computes the answer for `uri`, without touching any context.
    fn _try_resolve_uri(&self, uri: &Uri) -> (r: Result<UriPackageOrWrapper, WrapError>)
        ensures
            res_view(r) == self.resolved(uri@),
    ;
}

/// Resolves through `resolver` and appends one step recording the answer.
pub fn try_resolve_with_history<T: ResolverWithHistory>(
    resolver: &T,
    uri: &Uri,
    ctx: &mut UriResolutionContext,
) -> (r: Result<UriPackageOrWrapper, WrapError>)
    ensures
        res_view(r) == resolver.resolved(uri@),
        exists|s: StepV|
            #[trigger] ctx_pushed(old(ctx)@, final(ctx)@, s) && s.source_uri == uri@ && s.result
                == res_view(r) && s.sub_history is None && s.description == Some(
                resolver.step_description(),
            ),
        final(ctx)@.visited == old(ctx)@.visited,
        history_preserved(old(ctx)@, final(ctx)@),
        history_has_source(old(ctx)@, final(ctx)@, uri@),
{
    let r = resolver._try_resolve_uri(uri);
    let step = UriResolutionStep {
        source_uri: uri.clone(),
        result: clone_result(&r),
        description: Some(resolver.get_step_description(uri)),
        sub_history: None,
    };
    let ghost sv = crate::context::step_view(step);
    ctx.track_step(step);
    proof {
        assert(ctx_pushed(old(ctx)@, ctx@, sv));
        assert(ctx@.history.subrange(0, old(ctx)@.history.len() as int) =~= old(ctx)@.history);
        assert(ctx@.history[old(ctx)@.history.len() as int].source_uri == uri@);
    }
    r
}

impl ResolverWithHistory for RedirectResolver {
    /// `Uri(to)` for `from`, the not-found sentinel for everything else.
    open spec fn resolved(&self, uri: UriV) -> Result<UpowV, ErrV> {
        leaf_result(LeafV::Redirect(self.from@, self.to@), uri)
    }

    open spec fn step_description(&self) -> Seq<char> {
        "RedirectResolver"@
    }

    fn get_step_description(&self, uri: &Uri) -> (r: Vec<char>) {
        crate::uri::str_chars("RedirectResolver")
    }

    fn _try_resolve_uri(&self, uri: &Uri) -> (r: Result<UriPackageOrWrapper, WrapError>) {
        if self.from.eq_uri(uri) {
            Ok(UriPackageOrWrapper::Uri(self.to.clone()))
        } else {
            Err(WrapError::NotFound)
        }
    }
}

impl ResolverWithHistory for StaticResolver {
    /// The first table entry for `uri`, or the not-found sentinel.
    open spec fn resolved(&self, uri: UriV) -> Result<UpowV, ErrV> {
        static_lookup(entries_view(self.entries@), uri)
    }

    open spec fn step_description(&self) -> Seq<char> {
        "StaticResolver"@
    }

    fn get_step_description(&self, uri: &Uri) -> (r: Vec<char>) {
        crate::uri::str_chars("StaticResolver")
    }

    fn _try_resolve_uri(&self, uri: &Uri) -> (r: Result<UriPackageOrWrapper, WrapError>) {
        let ghost es = entries_view(self.entries@);
        proof {
            assert(es.skip(0) =~= es);
        }
        let mut i: usize = 0;
        while i < self.entries.len()
            invariant
                i <= self.entries@.len(),
                es == entries_view(self.entries@),
                static_lookup(es, uri@) == static_lookup(es.skip(i as int), uri@),
            decreases self.entries@.len() - i,
        {
            proof {
                assert(es.skip(i as int)[0] == es[i as int]);
            }
            if self.entries[i].0.eq_uri(uri) {
                return Ok(self.entries[i].1.clone());
            }
            i += 1;
            proof {
                assert(es.skip(i as int) =~= es.skip(i - 1).drop_first());
            }
        }
        proof {
            assert(es.skip(i as int).len() == 0);
        }
        Err(WrapError::NotFound)
    }
}

impl ResolverWithHistory for LeafResolver {
    /// What the held leaf answers.
    open spec fn resolved(&self, uri: UriV) -> Result<UpowV, ErrV> {
        leaf_result(self@, uri)
    }

    open spec fn step_description(&self) -> Seq<char> {
        match self {
            LeafResolver::Redirect(rr) => rr.step_description(),
            LeafResolver::Static(sr) => sr.step_description(),
        }
    }

    fn get_step_description(&self, uri: &Uri) -> (r: Vec<char>) {
        match self {
            LeafResolver::Redirect(rr) => rr.get_step_description(uri),
            LeafResolver::Static(sr) => sr.get_step_description(uri),
        }
    }

    fn _try_resolve_uri(&self, uri: &Uri) -> (r: Result<UriPackageOrWrapper, WrapError>) {
        match self {
            LeafResolver::Redirect(rr) => rr._try_resolve_uri(uri),
            LeafResolver::Static(sr) => sr._try_resolve_uri(uri),
        }
    }
}

impl UriResolverAggregator {
    /// Builds an aggregator over an ordered list of leaf resolvers.
    pub fn new(resolvers: Vec<LeafResolver>) -> (r: UriResolverAggregator)
        ensures
            r.resolvers@ == resolvers@,
    {
        UriResolverAggregator { resolvers }
    }

    /// Tries the children in order on a sub-context; the first answer that
    /// is not the not-found sentinel wins.
    fn try_children(&self, uri: &Uri, sub: &mut UriResolutionContext) -> (r: Result<
        UriPackageOrWrapper,
        WrapError,
    >)
        ensures
            res_view(r) == agg_result(
                Seq::new(self.resolvers@.len(), |i: int| self.resolvers@[i]@),
                uri@,
            ),
    {
        let ghost ls = Seq::new(self.resolvers@.len(), |i: int| self.resolvers@[i]@);
        proof {
            assert(ls.skip(0) =~= ls);
        }
        let mut i: usize = 0;
        while i < self.resolvers.len()
            invariant
                i <= self.resolvers@.len(),
                ls == Seq::new(self.resolvers@.len(), |j: int| self.resolvers@[j]@),
                agg_result(ls, uri@) == agg_result(ls.skip(i as int), uri@),
            decreases self.resolvers@.len() - i,
        {
            proof {
                assert(ls.skip(i as int)[0] == ls[i as int]);
            }
            let r = try_resolve_with_history(&self.resolvers[i], uri, sub);
            match &r {
                Err(WrapError::NotFound) => {},
                _ => {
                    return r;
                },
            }
            i += 1;
            proof {
                assert(ls.skip(i as int) =~= ls.skip(i - 1).drop_first());
            }
        }
        proof {
            assert(ls.skip(i as int).len() == 0);
        }
        Err(WrapError::NotFound)
    }
}

/// Looks a URI up in a cache table; a hit is returned as a copy.
fn cache_get(cache: &Vec<(Uri, UriPackageOrWrapper)>, uri: &Uri) -> (r: Option<
    UriPackageOrWrapper,
>)
    ensures
        match r {
            Some(v) => cache_lookup(entries_view(cache@), uri@) == Some(v@),
            None => cache_lookup(entries_view(cache@), uri@) is None,
        },
{
    let ghost es = entries_view(cache@);
    proof {
        assert(es.skip(0) =~= es);
    }
    let mut i: usize = 0;
    while i < cache.len()
        invariant
            i <= cache@.len(),
            es == entries_view(cache@),
            cache_lookup(es, uri@) == cache_lookup(es.skip(i as int), uri@),
        decreases cache@.len() - i,
    {
        proof {
            assert(es.skip(i as int)[0] == es[i as int]);
        }
        if cache[i].0.eq_uri(uri) {
            return Some(cache[i].1.clone());
        }
        i += 1;
        proof {
            assert(es.skip(i as int) =~= es.skip(i - 1).drop_first());
        }
    }
    proof {
        assert(es.skip(i as int).len() == 0);
    }
    None
}

/// `cache_set_spec` at the first matching index is an update.
proof fn lemma_cache_set_at(es: Seq<(UriV, UpowV)>, u: UriV, v: UpowV, i: int)
    requires
        0 <= i < es.len(),
        es[i].0 == u,
        forall|j: int| 0 <= j < i ==> (#[trigger] es[j]).0 != u,
    ensures
        cache_set_spec(es, u, v) =~= es.update(i, (u, v)),
    decreases i,
{
    if i == 0 {
        assert(cache_set_spec(es, u, v) =~= seq![(u, v)] + es.drop_first());
    } else {
        assert(es[0].0 != u);
        lemma_cache_set_at(es.drop_first(), u, v, i - 1);
        assert(cache_set_spec(es, u, v) =~= seq![es[0]] + cache_set_spec(es.drop_first(), u, v));
        assert(seq![es[0]] + es.drop_first().update(i - 1, (u, v)) =~= es.update(i, (u, v)));
    }
}

/// `cache_set_spec` with no matching key is an append.
proof fn lemma_cache_set_append(es: Seq<(UriV, UpowV)>, u: UriV, v: UpowV)
    requires
        forall|j: int| 0 <= j < es.len() ==> (#[trigger] es[j]).0 != u,
    ensures
        cache_set_spec(es, u, v) =~= es.push((u, v)),
    decreases es.len(),
{
    if es.len() == 0 {
    } else {
        lemma_cache_set_append(es.drop_first(), u, v);
        assert(cache_set_spec(es, u, v) =~= seq![es[0]] + cache_set_spec(es.drop_first(), u, v));
        assert(seq![es[0]] + es.drop_first().push((u, v)) =~= es.push((u, v)));
    }
}

/// Writes `v` under `u`: replaces the first entry keyed `u` or appends one.
fn cache_set(cache: &mut Vec<(Uri, UriPackageOrWrapper)>, u: &Uri, v: &UriPackageOrWrapper)
    ensures
        entries_view(final(cache)@) == cache_set_spec(entries_view(old(cache)@), u@, v@),
{
    let ghost es = entries_view(old(cache)@);
    let mut i: usize = 0;
    while i < cache.len()
        invariant
            i <= cache@.len(),
            cache@ == old(cache)@,
            es == entries_view(cache@),
            forall|j: int| 0 <= j < i ==> (#[trigger] es[j]).0 != u@,
        decreases cache@.len() - i,
    {
        if cache[i].0.eq_uri(u) {
            proof {
                assert(es[i as int].0 == u@);
            }
            cache.set(i, (u.clone(), v.clone()));
            proof {
                lemma_cache_set_at(es, u@, v@, i as int);
                assert(entries_view(cache@) =~= es.update(i as int, (u@, v@)));
            }
            return ;
        }
        i += 1;
    }
    cache.push((u.clone(), v.clone()));
    proof {
        lemma_cache_set_append(es, u@, v@);
        assert(entries_view(cache@) =~= es.push((u@, v@)));
    }
}

/// Writes `v` under every URI of `path`, in order.
fn cache_set_path(
    cache: &mut Vec<(Uri, UriPackageOrWrapper)>,
    path: &Vec<Uri>,
    v: &UriPackageOrWrapper,
)
    ensures
        entries_view(final(cache)@) == cache_extended(
            entries_view(old(cache)@),
            uris_view(path@),
            v@,
        ),
{
    let ghost es0 = entries_view(old(cache)@);
    let ghost pv = uris_view(path@);
    proof {
        assert(pv.skip(0) =~= pv);
    }
    let mut i: usize = 0;
    while i < path.len()
        invariant
            i <= path@.len(),
            pv == uris_view(path@),
            cache_extended(es0, pv, v@) == cache_extended(
                entries_view(cache@),
                pv.skip(i as int),
                v@,
            ),
        decreases path@.len() - i,
    {
        proof {
            assert(pv.skip(i as int)[0] == pv[i as int]);
        }
        cache_set(cache, &path[i], v);
        i += 1;
        proof {
            assert(pv.skip(i as int) =~= pv.skip(i - 1).drop_first());
        }
    }
    proof {
        assert(pv.skip(i as int).len() == 0);
    }
}

impl RedirectResolver {
    /// Builds a redirect resolver from its two ends.
    pub fn new(from: Uri, to: Uri) -> (r: RedirectResolver)
        ensures
            r.from@ == from@,
            r.to@ == to@,
    {
        RedirectResolver { from, to }
    }
}

impl StaticResolver {
    /// Builds a static resolver over a table.
    pub fn new(entries: Vec<(Uri, UriPackageOrWrapper)>) -> (r: StaticResolver)
        ensures
            r.entries@ == entries@,
    {
        StaticResolver { entries }
    }
}

impl ResolutionResultCacheResolver {
    /// Wraps a resolver with an empty result cache.
    pub fn new(resolver: Box<Resolver>) -> (r: ResolutionResultCacheResolver)
        ensures
            r.resolver == resolver,
            r.cache@.len() == 0,
    {
        ResolutionResultCacheResolver { resolver, cache: Vec::new() }
    }

    /// Wraps an aggregator with an empty result cache.
    pub fn from_aggregator(resolver: UriResolverAggregator) -> (r: ResolutionResultCacheResolver)
        ensures
            r.resolver == Box::new(Resolver::Aggregator(resolver)),
            r.cache@.len() == 0,
    {
        ResolutionResultCacheResolver {
            resolver: Box::new(Resolver::Aggregator(resolver)),
            cache: Vec::new(),
        }
    }
}

impl Resolver {
    /// Resolves `uri` one level: what this resolver answers, with its
    /// bookkeeping in `ctx`.  The relation `resolve_post` pins the answer,
    /// the state change and the recorded history down for every variant.
    pub fn try_resolve_uri(&mut self, uri: &Uri, ctx: &mut UriResolutionContext) -> (r: Result<
        UriPackageOrWrapper,
        WrapError,
    >)
        ensures
            resolve_post(old(self)@, final(self)@, uri@, res_view(r), old(ctx)@, final(ctx)@),
            uri_outputs(final(self)@).subset_of(uri_outputs(old(self)@)),
            height(final(self)@) == height(old(self)@),
            final(ctx)@.visited == old(ctx)@.visited,
            (match res_view(r) {
                Ok(UpowV::Uri(next)) => uri_outputs(final(self)@).contains(next),
                _ => true,
            }),
            history_preserved(old(ctx)@, final(ctx)@),
            res_view(r) is Ok ==> history_has_source(old(ctx)@, final(ctx)@, uri@),
        decreases height(self@), 1nat, 0nat,
    {
        let ghost pre = self@;
        let ghost cpre = ctx@;
        match self {
            Resolver::Redirect(rr) => {
                let r = try_resolve_with_history(rr, uri, ctx);
                proof {
                    assert(witness(0nat) && resolve_post_f(
                        pre,
                        pre,
                        uri@,
                        res_view(r),
                        cpre,
                        ctx@,
                        0nat,
                    ));
                }
                r
            },
            Resolver::Static(sr) => {
                let r = try_resolve_with_history(sr, uri, ctx);
                proof {
                    match res_view(r) {
                        Ok(UpowV::Uri(next)) => lemma_static_lookup_output(
                            entries_view(sr.entries@),
                            uri@,
                            next,
                        ),
                        _ => (),
                    }
                    assert(witness(0nat) && resolve_post_f(
                        pre,
                        pre,
                        uri@,
                        res_view(r),
                        cpre,
                        ctx@,
                        0nat,
                    ));
                }
                r
            },
            Resolver::Aggregator(agg) => {
                let ghost ls = Seq::new(agg.resolvers@.len(), |i: int| agg.resolvers@[i]@);
                let mut sub = ctx.create_sub_history_context();
                let r = agg.try_children(uri, &mut sub);
                let UriResolutionContext { history: sub_hist, .. } = sub;
                let step = UriResolutionStep {
                    source_uri: uri.clone(),
                    result: clone_result(&r),
                    description: Some(crate::uri::str_chars("UriResolverAggregator")),
                    sub_history: Some(sub_hist),
                };
                let ghost sv = crate::context::step_view(step);
                ctx.track_step(step);
                proof {
                    match res_view(r) {
                        Ok(UpowV::Uri(next)) => lemma_agg_result_output(ls, uri@, next),
                        _ => (),
                    }
                    assert(ctx_pushed(cpre, ctx@, sv));
                    assert(witness(0nat) && resolve_post_f(
                        pre,
                        pre,
                        uri@,
                        res_view(r),
                        cpre,
                        ctx@,
                        0nat,
                    ));
                    assert(ctx@.history.subrange(0, cpre.history.len() as int) =~= cpre.history);
                    assert(ctx@.history[cpre.history.len() as int].source_uri == uri@);
                }
                r
            },
            Resolver::Cache(c) => {
                let ghost es = entries_view(c.cache@);
                let ghost ipre = resolver_view(*c.resolver);
                proof {
                    assert(pre == ResolverV::Cache(Box::new(ipre), es));
                    assert(height(pre) == height(ipre) + 1);
                }
                let hit = cache_get(&c.cache, uri);
                match hit {
                    Some(v) => {
                        let r: Result<UriPackageOrWrapper, WrapError> = Ok(v);
                        let step = UriResolutionStep {
                            source_uri: uri.clone(),
                            result: clone_result(&r),
                            description: Some(
                                crate::uri::str_chars("ResolutionResultCacheResolver (Cache)"),
                            ),
                            sub_history: None,
                        };
                        let ghost sv = crate::context::step_view(step);
                        ctx.track_step(step);
                        proof {
                            assert(ctx_pushed(cpre, ctx@, sv));
                            match res_view(r) {
                                Ok(UpowV::Uri(next)) => lemma_cache_lookup_output(es, uri@, next),
                                _ => (),
                            }
                            assert(witness(0nat) && resolve_post_f(
                                pre,
                                pre,
                                uri@,
                                res_view(r),
                                cpre,
                                ctx@,
                                0nat,
                            ));
                            assert(ctx@.history.subrange(0, cpre.history.len() as int)
                                =~= cpre.history);
                            assert(ctx@.history[cpre.history.len() as int].source_uri == uri@);
                        }
                        r
                    },
                    None => {
                        let mut sub = ctx.create_sub_history_context();
                        proof {
                            assert(sub@ =~= ctx_sub(cpre));
                        }
                        let r = c.resolver.try_resolve_uri(uri, &mut sub);
                        let ghost ipost = resolver_view(*c.resolver);
                        let ghost csub = sub@;
                        let ghost f1 = choose|fuel: nat|
                            #[trigger] witness(fuel) && resolve_post_f(
                                ipre,
                                ipost,
                                uri@,
                                res_view(r),
                                ctx_sub(cpre),
                                csub,
                                fuel,
                            );
                        match &r {
                            Ok(v) => {
                                cache_set_path(&mut c.cache, &sub.resolution_path, v);
                            },
                            Err(e) => {},
                        }
                        let UriResolutionContext { history: sub_hist, .. } = sub;
                        let step = UriResolutionStep {
                            source_uri: uri.clone(),
                            result: clone_result(&r),
                            description: Some(
                                crate::uri::str_chars("ResolutionResultCacheResolver"),
                            ),
                            sub_history: Some(sub_hist),
                        };
                        let ghost sv = crate::context::step_view(step);
                        ctx.track_step(step);
                        proof {
                            assert(ctx_pushed(cpre, ctx@, sv));
                            assert(sv.sub_history == Some(csub.history));
                            assert(cache_miss_arm(
                                ipre,
                                es,
                                ipost,
                                csub,
                                final(self)@,
                                uri@,
                                res_view(r),
                                cpre,
                                ctx@,
                                f1,
                            ));
                            assert(witness((ipost, csub)) && cache_miss_arm(
                                ipre,
                                es,
                                ipost,
                                csub,
                                final(self)@,
                                uri@,
                                res_view(r),
                                cpre,
                                ctx@,
                                f1,
                            ));
                            assert(witness(f1 + 1) && resolve_post_f(
                                pre,
                                final(self)@,
                                uri@,
                                res_view(r),
                                cpre,
                                ctx@,
                                f1 + 1,
                            ));
                            // the outputs stay within the old ones
                            let opre = uri_outputs(pre);
                            let opost = uri_outputs(final(self)@);
                            if res_view(r) is Ok {
                                let v = res_view(r)->Ok_0;
                                let vset = (match v {
                                    UpowV::Uri(n) => Set::empty().insert(n),
                                    _ => Set::<UriV>::empty(),
                                });
                                lemma_cache_extended_outputs(es, csub.path, v);
                                assert forall|x: UriV| opost.contains(x) implies opre.contains(
                                    x,
                                ) by {
                                    if uri_outputs(ipost).contains(x) {
                                    } else {
                                        assert(entries_uri_outputs(
                                            cache_extended(es, csub.path, v),
                                        ).contains(x));
                                        if vset.contains(x) {
                                            assert(uri_outputs(ipost).contains(x));
                                        }
                                    }
                                }
                            }
                            assert(ctx@.history.subrange(0, cpre.history.len() as int)
                                =~= cpre.history);
                            assert(ctx@.history[cpre.history.len() as int].source_uri == uri@);
                        }
                        r
                    },
                }
            },
            Resolver::Recursive(inner) => {
                proof {
                    assert(pre == ResolverV::Recursive(Box::new(resolver_view(**inner))));
                    assert(height(pre) == height(resolver_view(**inner)) + 1);
                }
                let ghost ipre = resolver_view(**inner);
                let r = resolve_chain(&mut **inner, uri, ctx);
                let ghost ipost = resolver_view(**inner);
                proof {
                    let f = choose|fuel: nat|
                        #[trigger] witness(fuel) && chain_post_f(
                            ipre,
                            ipost,
                            uri@,
                            res_view(r),
                            cpre,
                            ctx@,
                            fuel,
                        );
                    assert(final(self)@ == ResolverV::Recursive(Box::new(ipost)));
                    assert(witness(ipost) && recursive_arm(
                        ipre,
                        ipost,
                        final(self)@,
                        uri@,
                        res_view(r),
                        cpre,
                        ctx@,
                        f,
                    ));
                    assert(witness(f + 1) && resolve_post_f(
                        pre,
                        final(self)@,
                        uri@,
                        res_view(r),
                        cpre,
                        ctx@,
                        f + 1,
                    ));
                }
                r
            },
        }
    }
}

/// Maps a URI to a URI, a package or a wrapper, given a resolution
/// context.
pub trait UriResolver {
    /// Resolves `uri`, recording steps in `ctx`.
    fn try_resolve_uri(&mut self, uri: &Uri, ctx: &mut UriResolutionContext) -> (r: Result<
        UriPackageOrWrapper,
        WrapError,
    >);
}

impl UriResolver for Resolver {
    fn try_resolve_uri(&mut self, uri: &Uri, ctx: &mut UriResolutionContext) -> (r: Result<
        UriPackageOrWrapper,
        WrapError,
    >) {
        Resolver::try_resolve_uri(self, uri, ctx)
    }
}

/// Drives a chain of resolutions through `inner`: resolves `uri`, follows a
/// `Uri` answer to a new URI through the same resolver, and stops at a
/// terminal answer, a fixed point, or a cycle.
fn resolve_chain(inner: &mut Resolver, uri: &Uri, ctx: &mut UriResolutionContext) -> (r: Result<
    UriPackageOrWrapper,
    WrapError,
>)
    ensures
        exists|fuel: nat|
            #[trigger] witness(fuel) && chain_post_f(
                old(inner)@,
                final(inner)@,
                uri@,
                res_view(r),
                old(ctx)@,
                final(ctx)@,
                fuel,
            ),
        uri_outputs(final(inner)@).subset_of(uri_outputs(old(inner)@)),
        height(final(inner)@) == height(old(inner)@),
        final(ctx)@.visited == old(ctx)@.visited,
        (match res_view(r) {
            Ok(UpowV::Uri(next)) => uri_outputs(final(inner)@).contains(next),
            _ => true,
        }),
        history_preserved(old(ctx)@, final(ctx)@),
        res_view(r) is Ok ==> history_has_source(old(ctx)@, final(ctx)@, uri@),
    decreases height(inner@), 2nat, chain_measure(uri_outputs(inner@), ctx@.visited, uri@),
{
    let ghost ipre = inner@;
    let ghost cpre = ctx@;
    if ctx.is_visited(uri) {
        let r: Result<UriPackageOrWrapper, WrapError> = Err(
            WrapError::InfiniteLoop(uri.clone()),
        );
        proof {
            assert(witness(0nat) && chain_post_f(ipre, ipre, uri@, res_view(r), cpre, cpre, 0nat));
            assert(cpre.history.subrange(0, cpre.history.len() as int) =~= cpre.history);
        }
        return r;
    }
    let n0 = ctx.visited.len();
    ctx.visit(uri);
    proof {
        assert(ctx@ =~= ctx_visited(cpre, uri@));
    }
    let r1 = inner.try_resolve_uri(uri, ctx);
    let ghost imid = inner@;
    let ghost cmid = ctx@;
    let ghost r1v = res_view(r1);
    let ghost f1 = choose|fuel: nat|
        #[trigger] witness(fuel) && resolve_post_f(
            ipre,
            imid,
            uri@,
            r1v,
            ctx_visited(cpre, uri@),
            cmid,
            fuel,
        );
    let cont: Option<Uri> = match &r1 {
        Ok(UriPackageOrWrapper::Uri(next)) => {
            if !next.eq_uri(uri) {
                Some(next.clone())
            } else {
                None
            }
        },
        _ => None,
    };
    match cont {
        Some(next) => {
            proof {
                lemma_uri_outputs_finite(ipre);
                lemma_chain_measure_decreases(
                    uri_outputs(imid),
                    uri_outputs(ipre),
                    cpre.visited,
                    uri@,
                    next@,
                );
                assert(ctx@.visited == cpre.visited.push(uri@));
            }
            let r = resolve_chain(inner, &next, ctx);
            let ghost ifin = inner@;
            let ghost cfin = ctx@;
            let ghost f2 = choose|fuel: nat|
                #[trigger] witness(fuel) && chain_post_f(
                    imid,
                    ifin,
                    next@,
                    res_view(r),
                    cmid,
                    cfin,
                    fuel,
                );
            proof {
                assert(n0 <= ctx@.visited.len());
            }
            ctx.truncate_visited(n0);
            proof {
                assert(ctx@.visited =~= cpre.visited) by {
                    assert(cfin.visited == cmid.visited);
                    assert(cmid.visited == cpre.visited.push(uri@));
                    assert(cpre.visited.push(uri@).subrange(0, n0 as int) =~= cpre.visited);
                };
                assert(ctx@ =~= ctx_restore(cfin, cpre));
                let f = f1 + f2;
                lemma_resolve_post_mono(
                    ipre,
                    imid,
                    uri@,
                    r1v,
                    ctx_visited(cpre, uri@),
                    cmid,
                    f1,
                    f,
                );
                lemma_chain_post_mono(imid, ifin, next@, res_view(r), cmid, cfin, f2, f);
                assert(witness(cfin) && chain_post_f(imid, ifin, next@, res_view(r), cmid, cfin, f)
                    && ctx@ == ctx_restore(cfin, cpre));
                assert(chain_cont(imid, ifin, next@, res_view(r), cmid, cpre, ctx@, f));
                assert(witness((r1v, imid, cmid)) && chain_arm(
                    ipre,
                    ifin,
                    uri@,
                    res_view(r),
                    cpre,
                    ctx@,
                    r1v,
                    imid,
                    cmid,
                    f,
                ));
                assert(witness(f + 1) && chain_post_f(
                    ipre,
                    ifin,
                    uri@,
                    res_view(r),
                    cpre,
                    ctx@,
                    f + 1,
                ));
                // history bookkeeping
                lemma_history_preserved_trans(cpre, cmid, cfin);
                assert(history_preserved(cpre, ctx@));
                if res_view(r) is Ok {
                    assert(history_has_source(ctx_visited(cpre, uri@), cmid, uri@));
                    assert(history_has_source(cpre, cmid, uri@));
                    lemma_history_has_source_trans(cpre, cmid, cfin, uri@);
                    assert(history_has_source(cpre, ctx@, uri@));
                }
            }
            r
        },
        None => {
            proof {
                assert(n0 <= ctx@.visited.len());
            }
            ctx.truncate_visited(n0);
            proof {
                assert(ctx@.visited =~= cpre.visited) by {
                    assert(cmid.visited == cpre.visited.push(uri@));
                    assert(cpre.visited.push(uri@).subrange(0, n0 as int) =~= cpre.visited);
                };
                assert(ctx@ =~= ctx_restore(cmid, cpre));
                assert(chain_arm(ipre, imid, uri@, r1v, cpre, ctx@, r1v, imid, cmid, f1));
                assert(witness((r1v, imid, cmid)) && chain_arm(
                    ipre,
                    imid,
                    uri@,
                    r1v,
                    cpre,
                    ctx@,
                    r1v,
                    imid,
                    cmid,
                    f1,
                ));
                assert(witness(f1 + 1) && chain_post_f(
                    ipre,
                    imid,
                    uri@,
                    r1v,
                    cpre,
                    ctx@,
                    f1 + 1,
                ));
                if r1v is Ok {
                    assert(history_has_source(ctx_visited(cpre, uri@), cmid, uri@));
                    assert(history_has_source(cpre, ctx@, uri@));
                }
            }
            r1
        },
    }
}

} // verus!

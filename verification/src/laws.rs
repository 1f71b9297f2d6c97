use vstd::prelude::*;
use crate::uri::UriV;
use crate::error::ErrV;
use crate::context::{UpowV, CtxV, StepV};
use crate::resolvers::{
    ResolverV, LeafV, resolve_post, resolve_post_f, chain_post_f, chain_arm, chain_cont,
    recursive_arm, cache_miss_arm, cache_lookup, cache_extended, static_lookup, leaf_result,
    agg_result, witness, ctx_pushed, ctx_visited, ctx_restore, ctx_sub,
    lemma_cache_extended_lookup,
};
use crate::wrapper::{WrapperV, BehaviorV, find_method};
use crate::client::{
    CfgV, invoke_post_f, invoke_load_arm, invoke_sub_arm, wrapper_invoke_rel, env_lookup,
    redirect_walk, ctx_empty,
};

verus! {

/// `a` is an unchanged initial segment of `b`.
pub open spec fn path_prefix(a: Seq<UriV>, b: Seq<UriV>) -> bool {
    b.len() >= a.len() && b.subrange(0, a.len() as int) == a
}

/// Resolution only appends to the traversed path.
pub proof fn lemma_resolve_path_prefix(
    pre: ResolverV,
    post: ResolverV,
    uri: UriV,
    r: Result<UpowV, ErrV>,
    c1: CtxV,
    c2: CtxV,
    fuel: nat,
)
    requires
        resolve_post_f(pre, post, uri, r, c1, c2, fuel),
    ensures
        path_prefix(c1.path, c2.path),
    decreases fuel, 0nat,
{
    match pre {
        ResolverV::Recursive(inner) => {
            let ipost = choose|ipost: ResolverV|
                #[trigger] witness(ipost) && recursive_arm(
                    *inner,
                    ipost,
                    post,
                    uri,
                    r,
                    c1,
                    c2,
                    (fuel - 1) as nat,
                );
            lemma_chain_path_prefix(*inner, ipost, uri, r, c1, c2, (fuel - 1) as nat);
        },
        ResolverV::Cache(inner, es) => {
            match cache_lookup(es, uri) {
                Some(v) => {
                    let s = choose|s: StepV|
                        #[trigger] ctx_pushed(c1, c2, s) && s.source_uri == uri && s.result == r
                            && s.sub_history is None;
                    assert(c2.path.subrange(0, c1.path.len() as int) =~= c1.path);
                },
                None => {
                    let (ipost, csub) = choose|ipost: ResolverV, csub: CtxV|
                        #[trigger] witness((ipost, csub)) && cache_miss_arm(
                            *inner,
                            es,
                            ipost,
                            csub,
                            post,
                            uri,
                            r,
                            c1,
                            c2,
                            (fuel - 1) as nat,
                        );
                    let s = choose|s: StepV|
                        #[trigger] ctx_pushed(c1, c2, s) && s.source_uri == uri && s.result == r
                            && s.sub_history == Some(csub.history);
                    assert(c2.path.subrange(0, c1.path.len() as int) =~= c1.path);
                },
            }
        },
        _ => {
            assert(c2.path == c1.path);
            assert(c2.path.subrange(0, c1.path.len() as int) =~= c1.path);
        },
    }
}

/// A chain only appends to the traversed path, and — unless the starting
/// URI was already in flight — records the starting URI on it.
pub proof fn lemma_chain_path_prefix(
    ipre: ResolverV,
    ipost: ResolverV,
    uri: UriV,
    r: Result<UpowV, ErrV>,
    c1: CtxV,
    c2: CtxV,
    fuel: nat,
)
    requires
        chain_post_f(ipre, ipost, uri, r, c1, c2, fuel),
    ensures
        path_prefix(c1.path, c2.path),
        !c1.visited.contains(uri) ==> c2.path.contains(uri),
    decreases fuel, 1nat,
{
    if c1.visited.contains(uri) {
        assert(c2.path.subrange(0, c1.path.len() as int) =~= c1.path);
    } else {
        let (r1, imid, cmid) = choose|r1: Result<UpowV, ErrV>, imid: ResolverV, cmid: CtxV|
            #[trigger] witness((r1, imid, cmid)) && chain_arm(
                ipre,
                ipost,
                uri,
                r,
                c1,
                c2,
                r1,
                imid,
                cmid,
                (fuel - 1) as nat,
            );
        lemma_resolve_path_prefix(
            ipre,
            imid,
            uri,
            r1,
            ctx_visited(c1, uri),
            cmid,
            (fuel - 1) as nat,
        );
        assert(ctx_visited(c1, uri).path == c1.path.push(uri));
        assert(cmid.path[c1.path.len() as int] == c1.path.push(uri)[c1.path.len() as int]) by {
            assert(cmid.path.subrange(0, c1.path.push(uri).len() as int)[c1.path.len() as int]
                == cmid.path[c1.path.len() as int]);
        }
        assert(cmid.path.contains(uri)) by {
            assert(cmid.path[c1.path.len() as int] == uri);
        }
        assert(path_prefix(c1.path, cmid.path)) by {
            assert(cmid.path.subrange(0, c1.path.len() as int) =~= cmid.path.subrange(
                0,
                c1.path.push(uri).len() as int,
            ).subrange(0, c1.path.len() as int));
            assert(c1.path.push(uri).subrange(0, c1.path.len() as int) =~= c1.path);
        }
        match r1 {
            Ok(UpowV::Uri(next)) => {
                if next != uri {
                    let cfin = choose|cfin: CtxV|
                        #[trigger] witness(cfin) && chain_post_f(
                            imid,
                            ipost,
                            next,
                            r,
                            cmid,
                            cfin,
                            (fuel - 1) as nat,
                        ) && c2 == ctx_restore(cfin, c1);
                    lemma_chain_path_prefix(imid, ipost, next, r, cmid, cfin, (fuel - 1) as nat);
                    assert(c2.path == cfin.path);
                    assert(path_prefix(c1.path, c2.path)) by {
                        assert(c2.path.subrange(0, c1.path.len() as int) =~= c2.path.subrange(
                            0,
                            cmid.path.len() as int,
                        ).subrange(0, c1.path.len() as int));
                    }
                    assert(c2.path.contains(uri)) by {
                        let k = choose|k: int|
                            0 <= k < cmid.path.len() && cmid.path[k] == uri;
                        assert(c2.path.subrange(0, cmid.path.len() as int)[k] == c2.path[k]);
                    }
                } else {
                    assert(c2.path == cmid.path);
                }
            },
            _ => {
                assert(c2.path == cmid.path);
            },
        }
    }
}

/// Resolving a URI the cache already holds answers the cached value and
/// touches nothing: neither the cache nor the inner resolver.
pub proof fn lemma_cache_hit_returns_cached(
    pre: ResolverV,
    post: ResolverV,
    uri: UriV,
    r: Result<UpowV, ErrV>,
    c1: CtxV,
    c2: CtxV,
    v: UpowV,
)
    requires
        resolve_post(pre, post, uri, r, c1, c2),
        pre is Cache,
        cache_lookup(pre->Cache_1, uri) == Some(v),
    ensures
        r == Ok::<UpowV, ErrV>(v),
        post == pre,
{
    let fuel = choose|fuel: nat|
        #[trigger] witness(fuel) && resolve_post_f(pre, post, uri, r, c1, c2, fuel);
}

/// After a successful resolution that missed the cache, the whole traversed
/// path of the sub-resolution answers the final value from the cache; when
/// the inner resolver is the recursion driver and the URI was not yet in
/// flight, the queried URI itself is on that path.
pub proof fn lemma_cache_seeds_path(
    pre: ResolverV,
    post: ResolverV,
    uri: UriV,
    v: UpowV,
    c1: CtxV,
    c2: CtxV,
)
    requires
        resolve_post(pre, post, uri, Ok(v), c1, c2),
        pre is Cache,
        cache_lookup(pre->Cache_1, uri) is None,
    ensures
        post is Cache,
        exists|path: Seq<UriV>|
            #[trigger] witness(path) && (forall|q: UriV|
                path.contains(q) ==> cache_lookup(post->Cache_1, q) == Some(v)) && ((
            (*pre->Cache_0) is Recursive && !c1.visited.contains(uri)) ==> path.contains(uri)),
{
    let fuel = choose|fuel: nat|
        #[trigger] witness(fuel) && resolve_post_f(pre, post, uri, Ok(v), c1, c2, fuel);
    let inner = pre->Cache_0;
    let es = pre->Cache_1;
    let (ipost, csub) = choose|ipost: ResolverV, csub: CtxV|
        #[trigger] witness((ipost, csub)) && cache_miss_arm(
            *inner,
            es,
            ipost,
            csub,
            post,
            uri,
            Ok(v),
            c1,
            c2,
            (fuel - 1) as nat,
        );
    let path = csub.path;
    assert(post->Cache_1 == cache_extended(es, csub.path, v));
    assert forall|q: UriV| path.contains(q) implies cache_lookup(post->Cache_1, q) == Some(v) by {
        lemma_cache_extended_lookup(es, csub.path, v, q);
    }
    if (*pre->Cache_0) is Recursive && !c1.visited.contains(uri) {
        let i0 = *(*inner)->Recursive_0;
        let ipost2 = choose|ipost2: ResolverV|
            #[trigger] witness(ipost2) && recursive_arm(
                i0,
                ipost2,
                ipost,
                uri,
                Ok(v),
                ctx_sub(c1),
                csub,
                (fuel - 2) as nat,
            );
        lemma_chain_path_prefix(i0, ipost2, uri, Ok(v), ctx_sub(c1), csub, (fuel - 2) as nat);
    }
    assert(witness(path) && (forall|q: UriV|
        path.contains(q) ==> cache_lookup(post->Cache_1, q) == Some(v)) && ((
    (*pre->Cache_0) is Recursive && !c1.visited.contains(uri)) ==> path.contains(uri)));
}

/// Resolution is idempotent under caching: after a caching recursive tree
/// resolves a URI once, resolving it again yields the identical value, and
/// the resolver — cache and children alike — is left untouched.
pub proof fn lemma_resolution_idempotent_under_cache(
    pre: ResolverV,
    mid: ResolverV,
    post: ResolverV,
    uri: UriV,
    v: UpowV,
    r2: Result<UpowV, ErrV>,
    c1: CtxV,
    c2: CtxV,
    c3: CtxV,
    c4: CtxV,
)
    requires
        pre is Cache,
        (*pre->Cache_0) is Recursive,
        cache_lookup(pre->Cache_1, uri) is None,
        !c1.visited.contains(uri),
        resolve_post(pre, mid, uri, Ok(v), c1, c2),
        resolve_post(mid, post, uri, r2, c3, c4),
    ensures
        r2 == Ok::<UpowV, ErrV>(v),
        post == mid,
{
    lemma_cache_seeds_path(pre, mid, uri, v, c1, c2);
    let path = choose|path: Seq<UriV>|
        #[trigger] witness(path) && (forall|q: UriV|
            path.contains(q) ==> cache_lookup(mid->Cache_1, q) == Some(v)) && ((
        (*pre->Cache_0) is Recursive && !c1.visited.contains(uri)) ==> path.contains(uri));
    lemma_cache_hit_returns_cached(mid, post, uri, r2, c3, c4, v);
}

/// The aggregator honors order: when its first child answers, that answer
/// is the aggregator's, whatever later children would say.
pub proof fn lemma_aggregator_order(
    ls: Seq<LeafV>,
    post: ResolverV,
    uri: UriV,
    r: Result<UpowV, ErrV>,
    c1: CtxV,
    c2: CtxV,
)
    requires
        resolve_post(ResolverV::Aggregator(ls), post, uri, r, c1, c2),
        ls.len() > 0,
        leaf_result(ls[0], uri) != Err::<UpowV, ErrV>(ErrV::NotFound),
    ensures
        r == leaf_result(ls[0], uri),
        post == ResolverV::Aggregator(ls),
{
    let fuel = choose|fuel: nat|
        #[trigger] witness(fuel) && resolve_post_f(ResolverV::Aggregator(ls), post, uri, r, c1, c2, fuel);
    assert(r == agg_result(ls, uri));
}

/// A resolver tree that sends `a` to `b` and `b` back to `a` is rejected:
/// resolving `a` through the recursion driver reports the cycle at `a`, and
/// yields no wrapper.
pub proof fn lemma_cycle_rejected(
    es: Seq<(UriV, UpowV)>,
    post: ResolverV,
    a: UriV,
    b: UriV,
    r: Result<UpowV, ErrV>,
    c1: CtxV,
    c2: CtxV,
)
    requires
        resolve_post(ResolverV::Recursive(Box::new(ResolverV::Static(es))), post, a, r, c1, c2),
        static_lookup(es, a) == Ok::<UpowV, ErrV>(UpowV::Uri(b)),
        static_lookup(es, b) == Ok::<UpowV, ErrV>(UpowV::Uri(a)),
        a != b,
        !c1.visited.contains(a),
        !c1.visited.contains(b),
    ensures
        r == Err::<UpowV, ErrV>(ErrV::InfiniteLoop(a)),
{
    let st = ResolverV::Static(es);
    let pre = ResolverV::Recursive(Box::new(st));
    let fuel = choose|fuel: nat|
        #[trigger] witness(fuel) && resolve_post_f(pre, post, a, r, c1, c2, fuel);
    let ipost = choose|ipost: ResolverV|
        #[trigger] witness(ipost) && recursive_arm(st, ipost, post, a, r, c1, c2, (fuel - 1) as nat);
    // first link: `a` answers `Uri(b)`
    let f1 = (fuel - 2) as nat;
    let (r1, imid, cmid) = choose|r1: Result<UpowV, ErrV>, imid: ResolverV, cmid: CtxV|
        #[trigger] witness((r1, imid, cmid)) && chain_arm(st, ipost, a, r, c1, c2, r1, imid, cmid, f1);
    assert(r1 == static_lookup(es, a));
    assert(imid == st);
    let s1 = choose|s: StepV|
        #[trigger] ctx_pushed(ctx_visited(c1, a), cmid, s) && s.source_uri == a && s.result == r1
            && s.sub_history is None;
    assert(cmid.visited == c1.visited.push(a));
    assert(chain_cont(st, ipost, b, r, cmid, c1, c2, f1));
    let cfin = choose|cfin: CtxV|
        #[trigger] witness(cfin) && chain_post_f(st, ipost, b, r, cmid, cfin, f1) && c2
            == ctx_restore(cfin, c1);
    // second link: `b` answers `Uri(a)`
    assert(!cmid.visited.contains(b)) by {
        if cmid.visited.contains(b) {
            let k = choose|k: int| 0 <= k < cmid.visited.len() && cmid.visited[k] == b;
            if k < c1.visited.len() {
                assert(c1.visited[k] == b);
            } else {
                assert(cmid.visited[k] == a);
            }
        }
    }
    let f2 = (f1 - 1) as nat;
    let (r2, imid2, cmid2) = choose|r2: Result<UpowV, ErrV>, imid2: ResolverV, cmid2: CtxV|
        #[trigger] witness((r2, imid2, cmid2)) && chain_arm(
            st,
            ipost,
            b,
            r,
            cmid,
            cfin,
            r2,
            imid2,
            cmid2,
            f2,
        );
    assert(r2 == static_lookup(es, b));
    assert(imid2 == st);
    let s2 = choose|s: StepV|
        #[trigger] ctx_pushed(ctx_visited(cmid, b), cmid2, s) && s.source_uri == b && s.result == r2
            && s.sub_history is None;
    assert(cmid2.visited == cmid.visited.push(b));
    assert(chain_cont(st, ipost, a, r, cmid2, cmid, cfin, f2));
    let cfin2 = choose|cfin2: CtxV|
        #[trigger] witness(cfin2) && chain_post_f(st, ipost, a, r, cmid2, cfin2, f2) && cfin
            == ctx_restore(cfin2, cmid);
    // third link: `a` is already in flight
    assert(cmid2.visited.contains(a)) by {
        assert(cmid2.visited[c1.visited.len() as int] == cmid.visited[c1.visited.len() as int]);
        assert(cmid.visited[c1.visited.len() as int] == a);
    }
}

/// A static table that cycles — each member maps to the next and the last
/// back to the first — is rejected, whatever the cycle's length: resolving
/// any member through the recursion driver reports a cycle at one of the
/// members.  (A one-member cycle is a fixed point and terminates instead.)
pub proof fn lemma_cycle_rejected_general(
    es: Seq<(UriV, UpowV)>,
    post: ResolverV,
    cyc: Seq<UriV>,
    k: int,
    r: Result<UpowV, ErrV>,
    c1: CtxV,
    c2: CtxV,
)
    requires
        0 <= k < cyc.len(),
        cyc.len() >= 2,
        cyc.no_duplicates(),
        forall|i: int|
            0 <= i < cyc.len() ==> #[trigger] static_lookup(es, cyc[i]) == Ok::<UpowV, ErrV>(
                UpowV::Uri(cyc[(i + 1) % (cyc.len() as int)]),
            ),
        resolve_post(
            ResolverV::Recursive(Box::new(ResolverV::Static(es))),
            post,
            cyc[k],
            r,
            c1,
            c2,
        ),
    ensures
        exists|k2: int|
            0 <= k2 < cyc.len() && r == Err::<UpowV, ErrV>(ErrV::InfiniteLoop(#[trigger] cyc[k2])),
{
    let st = ResolverV::Static(es);
    let pre = ResolverV::Recursive(Box::new(st));
    let fuel = choose|fuel: nat|
        #[trigger] witness(fuel) && resolve_post_f(pre, post, cyc[k], r, c1, c2, fuel);
    let ipost = choose|ipost: ResolverV|
        #[trigger] witness(ipost) && recursive_arm(
            st,
            ipost,
            post,
            cyc[k],
            r,
            c1,
            c2,
            (fuel - 1) as nat,
        );
    lemma_cycle_chain(es, ipost, cyc, k, r, c1, c2, (fuel - 1) as nat);
}

/// Helper for the cycle law: a chain that starts at a cycle member keeps
/// following cycle members, so it can only end by revisiting one.
proof fn lemma_cycle_chain(
    es: Seq<(UriV, UpowV)>,
    ipost: ResolverV,
    cyc: Seq<UriV>,
    k: int,
    r: Result<UpowV, ErrV>,
    cpre: CtxV,
    cpost: CtxV,
    fuel: nat,
)
    requires
        0 <= k < cyc.len(),
        cyc.len() >= 2,
        cyc.no_duplicates(),
        forall|i: int|
            0 <= i < cyc.len() ==> #[trigger] static_lookup(es, cyc[i]) == Ok::<UpowV, ErrV>(
                UpowV::Uri(cyc[(i + 1) % (cyc.len() as int)]),
            ),
        chain_post_f(ResolverV::Static(es), ipost, cyc[k], r, cpre, cpost, fuel),
    ensures
        exists|k2: int|
            0 <= k2 < cyc.len() && r == Err::<UpowV, ErrV>(ErrV::InfiniteLoop(#[trigger] cyc[k2])),
    decreases fuel,
{
    let st = ResolverV::Static(es);
    let n = cyc.len() as int;
    if cpre.visited.contains(cyc[k]) {
        assert(0 <= k < cyc.len() && r == Err::<UpowV, ErrV>(ErrV::InfiniteLoop(cyc[k])));
    } else {
        let (r1, imid, cmid) = choose|r1: Result<UpowV, ErrV>, imid: ResolverV, cmid: CtxV|
            #[trigger] witness((r1, imid, cmid)) && chain_arm(
                st,
                ipost,
                cyc[k],
                r,
                cpre,
                cpost,
                r1,
                imid,
                cmid,
                (fuel - 1) as nat,
            );
        assert(r1 == static_lookup(es, cyc[k]));
        let k2 = (k + 1) % n;
        assert(k2 != k) by {
            if k + 1 < n {
                vstd::arithmetic::div_mod::lemma_small_mod((k + 1) as nat, n as nat);
            } else {
                assert(k + 1 == n);
                assert(n % n == 0) by {
                    vstd::arithmetic::div_mod::lemma_mod_self_0(n);
                };
            }
        };
        assert(cyc[k2] != cyc[k]);
        assert(chain_cont(st, ipost, cyc[k2], r, cmid, cpre, cpost, (fuel - 1) as nat));
        let cfin = choose|cfin: CtxV|
            #[trigger] witness(cfin) && chain_post_f(
                st,
                ipost,
                cyc[k2],
                r,
                cmid,
                cfin,
                (fuel - 1) as nat,
            ) && cpost == ctx_restore(cfin, cpre);
        lemma_cycle_chain(es, ipost, cyc, k2, r, cmid, cfin, (fuel - 1) as nat);
    }
}

/// The environment of a sub-invocation is the sub-invoked URI's own
/// registration, never the parent invocation's environment: whatever
/// environment the parent ran under, the child runs on a child sub-context
/// with no environment handed down, and its load step receives exactly the
/// environment registered for the (redirect-applied) child URI.
pub proof fn lemma_subinvocation_env(
    cfg: CfgV,
    rpre: ResolverV,
    rpost: ResolverV,
    wuri: UriV,
    w: WrapperV,
    m: Seq<char>,
    args: Seq<u8>,
    env_parent: Option<Seq<u8>>,
    r: Result<Seq<u8>, ErrV>,
    cpre: CtxV,
    cpost: CtxV,
    fuel: nat,
    su: UriV,
    sm: Seq<char>,
    rsu: UriV,
)
    requires
        wrapper_invoke_rel(cfg, rpre, rpost, wuri, w, m, args, env_parent, r, cpre, cpost, fuel),
        find_method(w.methods, m) == Some(BehaviorV::Subinvoke { uri: su, method: sm }),
        fuel > 0,
        redirect_walk(cfg.redirects, su, Seq::empty(), cfg.redirects.len() + 1) == Ok::<
            UriV,
            ErrV,
        >(rsu),
    ensures
        exists|rsub: Result<Seq<u8>, ErrV>, csub: CtxV|
            #[trigger] witness((rsub, csub)) && invoke_post_f(
                cfg,
                rpre,
                rpost,
                su,
                sm,
                args,
                None,
                rsub,
                ctx_sub(cpre),
                csub,
                (fuel - 1) as nat,
            ) && (exists|resr: Result<UpowV, ErrV>, rmid: ResolverV, cmid: CtxV|
                #[trigger] witness((resr, rmid, cmid)) && invoke_load_arm(
                    cfg,
                    rpre,
                    rmid,
                    rpost,
                    rsu,
                    sm,
                    args,
                    env_lookup(cfg.envs, rsu),
                    resr,
                    rsub,
                    ctx_sub(cpre),
                    cmid,
                    csub,
                    (fuel - 1) as nat,
                )),
{
    let (rsub, csub) = choose|rsub: Result<Seq<u8>, ErrV>, csub: CtxV|
        #[trigger] witness((rsub, csub)) && invoke_sub_arm(
            cfg,
            rpre,
            rpost,
            su,
            sm,
            args,
            rsub,
            csub,
            r,
            cpre,
            cpost,
            (fuel - 1) as nat,
        );
    assert(invoke_post_f(
        cfg,
        rpre,
        rpost,
        su,
        sm,
        args,
        None,
        rsub,
        ctx_sub(cpre),
        csub,
        (fuel - 1) as nat,
    ));
    let (resr, rmid, cmid) = choose|resr: Result<UpowV, ErrV>, rmid: ResolverV, cmid: CtxV|
        #[trigger] witness((resr, rmid, cmid)) && invoke_load_arm(
            cfg,
            rpre,
            rmid,
            rpost,
            rsu,
            sm,
            args,
            env_lookup(cfg.envs, rsu),
            resr,
            rsub,
            ctx_sub(cpre),
            cmid,
            csub,
            (fuel - 1) as nat,
        );
    assert(witness((rsub, csub)) && invoke_post_f(
        cfg,
        rpre,
        rpost,
        su,
        sm,
        args,
        None,
        rsub,
        ctx_sub(cpre),
        csub,
        (fuel - 1) as nat,
    ) && (exists|resr2: Result<UpowV, ErrV>, rmid2: ResolverV, cmid2: CtxV|
        #[trigger] witness((resr2, rmid2, cmid2)) && invoke_load_arm(
            cfg,
            rpre,
            rmid2,
            rpost,
            rsu,
            sm,
            args,
            env_lookup(cfg.envs, rsu),
            resr2,
            rsub,
            ctx_sub(cpre),
            cmid2,
            csub,
            (fuel - 1) as nat,
        )));
}

/// Redirect application terminates within one step per redirect: giving the
/// walk any fuel beyond the list's length never changes the outcome, so any
/// URI reaches its fixed point — or its cycle — in at most `rs.len()`
/// replacement steps.
pub proof fn lemma_redirect_termination(rs: Seq<(UriV, UriV)>, u: UriV, extra: nat)
    ensures
        redirect_walk(rs, u, Seq::empty(), rs.len() + 1) == redirect_walk(
            rs,
            u,
            Seq::empty(),
            rs.len() + 1 + extra,
        ),
{
    crate::client::lemma_redirect_walk_fuel(
        rs,
        u,
        Seq::empty(),
        (rs.len() + 1) as nat,
        (rs.len() + 1 + extra) as nat,
    );
}

/// An invocation through a one-entry tree that answers a ready wrapper
/// whose method echoes: the contract forces the argument bytes back,
/// unchanged, whatever the environment.
pub proof fn lemma_echo_invocation(
    cfg: CfgV,
    es: Seq<(UriV, UpowV)>,
    rpost: ResolverV,
    uri: UriV,
    m: Seq<char>,
    args: Seq<u8>,
    env: Option<Seq<u8>>,
    r: Result<Seq<u8>, ErrV>,
    cpre: CtxV,
    cpost: CtxV,
    fuel: nat,
    w: WrapperV,
)
    requires
        cfg.redirects.len() == 0,
        invoke_post_f(cfg, ResolverV::Static(es), rpost, uri, m, args, env, r, cpre, cpost, fuel),
        static_lookup(es, uri) == Ok::<UpowV, ErrV>(UpowV::Wrapper(uri, w)),
        find_method(w.methods, m) == Some(BehaviorV::ReturnArgs),
    ensures
        r == Ok::<Seq<u8>, ErrV>(args),
{
    assert(redirect_walk(cfg.redirects, uri, Seq::empty(), cfg.redirects.len() + 1) == Ok::<
        UriV,
        ErrV,
    >(uri));
    let env_used = (if env is Some {
        env
    } else {
        env_lookup(cfg.envs, uri)
    });
    let (resr, rmid, cmid) = choose|resr: Result<UpowV, ErrV>, rmid: ResolverV, cmid: CtxV|
        #[trigger] witness((resr, rmid, cmid)) && invoke_load_arm(
            cfg,
            ResolverV::Static(es),
            rmid,
            rpost,
            uri,
            m,
            args,
            env_used,
            resr,
            r,
            cpre,
            cmid,
            cpost,
            fuel,
        );
    let f2 = choose|f2: nat|
        #[trigger] witness(f2) && resolve_post_f(
            ResolverV::Static(es),
            rmid,
            uri,
            resr,
            cpre,
            cmid,
            f2,
        );
    assert(resr == static_lookup(es, uri));
    assert(wrapper_invoke_rel(cfg, rmid, rpost, uri, w, m, args, env_used, r, cmid, cpost, fuel));
}

} // verus!

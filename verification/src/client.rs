use vstd::prelude::*;
use crate::uri::{Uri, UriV, UriRedirect, clone_bytes, clone_chars, str_chars};
use crate::error::{WrapError, ErrV};
use crate::context::{
    UriPackageOrWrapper, UpowV, UriResolutionContext, UriResolutionStep, CtxV, StepV, res_view,
    uris_view,
};
use crate::resolvers::{Resolver, ResolverV, witness, resolve_post, history_preserved,
    history_has_source, ctx_sub, ctx_pushed, lemma_history_preserved_trans,
    lemma_history_has_source_trans};
use crate::wrapper::{Wrapper, WrapperV, MethodBehavior, BehaviorV, find_method, behavior_result,
    env_required_message};
use crate::package::{WrapPackage, package_created_wrapper};

verus! {

/// The values of an environment table.
pub open spec fn envs_view(s: Seq<(Uri, Vec<u8>)>) -> Seq<(UriV, Seq<u8>)> {
    Seq::new(s.len(), |i: int| (s[i].0@, s[i].1@))
}

/// The values of an interface-implementations table.
pub open spec fn ifaces_view(s: Seq<(Uri, Vec<Uri>)>) -> Seq<(UriV, Seq<UriV>)> {
    Seq::new(s.len(), |i: int| (s[i].0@, uris_view(s[i].1@)))
}

/// The values of a redirect list.
pub open spec fn redirects_view(s: Seq<UriRedirect>) -> Seq<(UriV, UriV)> {
    Seq::new(s.len(), |i: int| (s[i].from@, s[i].to@))
}

/// The environment registered for `u`, if any.
pub open spec fn env_lookup(envs: Seq<(UriV, Seq<u8>)>, u: UriV) -> Option<Seq<u8>>
    decreases envs.len(),
{
    if envs.len() == 0 {
        None
    } else if envs[0].0 == u {
        Some(envs[0].1)
    } else {
        env_lookup(envs.drop_first(), u)
    }
}

/// The implementation list registered for `u`, if any.
pub open spec fn iface_lookup(ifaces: Seq<(UriV, Seq<UriV>)>, u: UriV) -> Option<Seq<UriV>>
    decreases ifaces.len(),
{
    if ifaces.len() == 0 {
        None
    } else if ifaces[0].0 == u {
        Some(ifaces[0].1)
    } else {
        iface_lookup(ifaces.drop_first(), u)
    }
}

/// The target of the first redirect whose source is `u`, if any.
pub open spec fn redirect_first(rs: Seq<(UriV, UriV)>, u: UriV) -> Option<UriV>
    decreases rs.len(),
{
    if rs.len() == 0 {
        None
    } else if rs[0].0 == u {
        Some(rs[0].1)
    } else {
        redirect_first(rs.drop_first(), u)
    }
}

/// The sources of a redirect list.
pub open spec fn redirect_froms(rs: Seq<(UriV, UriV)>) -> Seq<UriV> {
    Seq::new(rs.len(), |i: int| rs[i].0)
}

/// Walking the redirect list from `u` to a fixed point: replace `u` by the
/// first matching redirect's target until none matches, reporting a cycle
/// when a URI repeats.  The walk needs at most one step per redirect, so
/// `rs.len() + 1` fuel always suffices.
pub open spec fn redirect_walk(rs: Seq<(UriV, UriV)>, u: UriV, visited: Seq<UriV>, fuel: nat) -> Result<
    UriV,
    ErrV,
>
    decreases fuel,
{
    if visited.contains(u) {
        Err(ErrV::InfiniteLoop(u))
    } else {
        match redirect_first(rs, u) {
            None => Ok(u),
            Some(to) => if fuel == 0 {
                Err(ErrV::InfiniteLoop(u))
            } else {
                redirect_walk(rs, to, visited.push(u), (fuel - 1) as nat)
            },
        }
    }
}

/// A matched URI is among the redirect sources.
proof fn lemma_redirect_first_from(rs: Seq<(UriV, UriV)>, u: UriV)
    requires
        redirect_first(rs, u) is Some,
    ensures
        redirect_froms(rs).to_set().contains(u),
    decreases rs.len(),
{
    broadcast use vstd::set::group_set_axioms;

    if rs.len() > 0 {
        if rs[0].0 == u {
            assert(redirect_froms(rs)[0] == u);
        } else {
            lemma_redirect_first_from(rs.drop_first(), u);
            let f = redirect_froms(rs.drop_first());
            let i = choose|i: int| 0 <= i < f.len() && f[i] == u;
            assert(redirect_froms(rs)[i + 1] == u);
        }
    }
}

/// A walk that was given one unit of fuel per redirect never runs out: with
/// any more fuel it returns the same result.  This is the termination bound
/// on redirect application: any URI is resolved through a redirect list in
/// at most one step per list entry.
pub proof fn lemma_redirect_walk_fuel(
    rs: Seq<(UriV, UriV)>,
    u: UriV,
    visited: Seq<UriV>,
    fuel1: nat,
    fuel2: nat,
)
    requires
        visited.no_duplicates(),
        forall|i: int|
            0 <= i < visited.len() ==> redirect_froms(rs).to_set().contains(
                #[trigger] visited[i],
            ),
        fuel1 + visited.len() >= rs.len() + 1,
        fuel2 + visited.len() >= rs.len() + 1,
    ensures
        redirect_walk(rs, u, visited, fuel1) == redirect_walk(rs, u, visited, fuel2),
    decreases fuel1 + fuel2,
{
    broadcast use vstd::set::group_set_axioms;
    broadcast use vstd::seq_lib::seq_to_set_is_finite;

    if !visited.contains(u) {
        match redirect_first(rs, u) {
            None => {},
            Some(to) => {
                // the visited URIs are distinct members of the source set,
                // so there are at most `rs.len()` of them
                lemma_redirect_first_from(rs, u);
                let froms = redirect_froms(rs).to_set();
                visited.unique_seq_to_set();
                vstd::set_lib::lemma_len_subset(visited.to_set(), froms);
                redirect_froms(rs).lemma_cardinality_of_set();
                assert(visited.len() <= rs.len());
                assert(fuel1 > 0 && fuel2 > 0);
                let v2 = visited.push(u);
                assert(v2.no_duplicates()) by {
                    assert(forall|i: int|
                        0 <= i < visited.len() ==> #[trigger] v2[i] == visited[i]);
                    assert(v2[visited.len() as int] == u);
                }
                assert(forall|i: int|
                    0 <= i < visited.len() ==> #[trigger] v2[i] == visited[i]);
                assert(v2[visited.len() as int] == u);
                lemma_redirect_walk_fuel(rs, to, v2, (fuel1 - 1) as nat, (fuel2 - 1) as nat);
            },
        }
    }
}

/// The target of the first redirect matching `u`, if any.
fn find_redirect(redirects: &Vec<UriRedirect>, u: &Uri) -> (r: Option<Uri>)
    ensures
        (match r {
            Some(to) => redirect_first(redirects_view(redirects@), u@) == Some(to@),
            None => redirect_first(redirects_view(redirects@), u@) is None,
        }),
{
    let ghost rsv = redirects_view(redirects@);
    proof {
        assert(rsv.skip(0) =~= rsv);
    }
    let mut i: usize = 0;
    while i < redirects.len()
        invariant
            rsv == redirects_view(redirects@),
            i <= redirects@.len(),
            redirect_first(rsv, u@) == redirect_first(rsv.skip(i as int), u@),
        decreases redirects@.len() - i,
    {
        proof {
            assert(rsv.skip(i as int)[0] == rsv[i as int]);
        }
        if redirects[i].from.eq_uri(u) {
            return Some(redirects[i].to.clone());
        }
        i += 1;
        proof {
            assert(rsv.skip(i as int) =~= rsv.skip(i - 1).drop_first());
        }
    }
    proof {
        assert(rsv.skip(i as int).len() == 0);
    }
    None
}

/// Applies a redirect list to `uri` until a fixed point, detecting cycles.
pub fn apply_redirects(redirects: &Vec<UriRedirect>, uri: &Uri) -> (r: Result<Uri, WrapError>)
    ensures
        (match r {
            Ok(u) => redirect_walk(
                redirects_view(redirects@),
                uri@,
                Seq::empty(),
                redirects@.len() + 1,
            ) == Ok::<UriV, ErrV>(u@),
            Err(e) => redirect_walk(
                redirects_view(redirects@),
                uri@,
                Seq::empty(),
                redirects@.len() + 1,
            ) == Err::<UriV, ErrV>(e@),
        }),
{
    broadcast use vstd::set::group_set_axioms;
    broadcast use vstd::seq_lib::seq_to_set_is_finite;

    let ghost rsv = redirects_view(redirects@);
    let ghost full_fuel = (rsv.len() + 1) as nat;
    let mut current: Uri = uri.clone();
    let mut visited: Vec<Uri> = Vec::new();
    proof {
        assert(uris_view(visited@) =~= Seq::<UriV>::empty());
    }
    loop
        invariant
            rsv == redirects_view(redirects@),
            full_fuel == rsv.len() + 1,
            uris_view(visited@).no_duplicates(),
            forall|i: int|
                0 <= i < visited@.len() ==> redirect_froms(rsv).to_set().contains(
                    #[trigger] uris_view(visited@)[i],
                ),
            visited@.len() <= rsv.len(),
            redirect_walk(rsv, uri@, Seq::empty(), full_fuel) == redirect_walk(
                rsv,
                current@,
                uris_view(visited@),
                (full_fuel - uris_view(visited@).len()) as nat,
            ),
        decreases 2 * redirect_froms(rsv).to_set().difference(uris_view(visited@).to_set()).len()
            + (if redirect_froms(rsv).to_set().contains(current@) {
            0nat
        } else {
            1nat
        }),
    {
        let ghost vis = uris_view(visited@);
        if visited_contains(&visited, &current) {
            return Err(WrapError::InfiniteLoop(current.clone()));
        }
        let found = find_redirect(redirects, &current);
        match found {
            None => {
                return Ok(current);
            },
            Some(to) => {
                proof {
                    assert(!vis.contains(current@));
                    lemma_redirect_first_from(rsv, current@);
                    assert(redirect_first(rsv, current@) == Some(to@));
                    assert((full_fuel - vis.len()) as nat > 0) by {
                        vis.unique_seq_to_set();
                        vstd::set_lib::lemma_len_subset(
                            vis.to_set(),
                            redirect_froms(rsv).to_set(),
                        );
                        redirect_froms(rsv).lemma_cardinality_of_set();
                    }
                }
                visited.push(current.clone());
                proof {
                    assert(uris_view(visited@) =~= vis.push(current@));
                    assert(forall|i: int|
                        0 <= i < vis.len() ==> #[trigger] vis.push(current@)[i] == vis[i]);
                    assert(vis.push(current@)[vis.len() as int] == current@);
                    vis.push(current@).unique_seq_to_set();
                    vstd::set_lib::lemma_len_subset(
                        vis.push(current@).to_set(),
                        redirect_froms(rsv).to_set(),
                    );
                    redirect_froms(rsv).lemma_cardinality_of_set();
                    // the chain measure shrinks: `current` leaves the pool
                    assert(vis.push(current@).to_set() =~= vis.to_set().insert(current@)) by {
                        assert forall|x: UriV| #[trigger] vis.push(current@).contains(x) implies vis
                            .contains(x) || x == current@ by {
                            let k = choose|k: int|
                                0 <= k < vis.push(current@).len() && vis.push(current@)[k] == x;
                            if k < vis.len() {
                                assert(vis[k] == x);
                            }
                        }
                        assert forall|x: UriV| vis.contains(x) implies #[trigger] vis.push(
                            current@,
                        ).contains(x) by {
                            let k = choose|k: int| 0 <= k < vis.len() && vis[k] == x;
                            assert(vis.push(current@)[k] == x);
                        }
                        assert(vis.push(current@)[vis.len() as int] == current@);
                    }
                    let pool = redirect_froms(rsv).to_set();
                    let a = pool.difference(vis.to_set());
                    let a2 = pool.difference(vis.push(current@).to_set());
                    assert(a.contains(current@));
                    assert(a2 =~= a.remove(current@));
                    vstd::set_lib::lemma_len_subset(a, pool);
                }
                current = to;
            },
        }
    }
}

/// Whether the list holds a URI with the same value.
fn visited_contains(visited: &Vec<Uri>, u: &Uri) -> (r: bool)
    ensures
        r == uris_view(visited@).contains(u@),
{
    let mut i: usize = 0;
    while i < visited.len()
        invariant
            i <= visited@.len(),
            forall|j: int| 0 <= j < i ==> uris_view(visited@)[j] != u@,
        decreases visited@.len() - i,
    {
        if visited[i].eq_uri(u) {
            proof {
                assert(uris_view(visited@)[i as int] == u@);
            }
            return true;
        }
        i += 1;
    }
    proof {
        if uris_view(visited@).contains(u@) {
            let j = choose|j: int|
                0 <= j < uris_view(visited@).len() && uris_view(visited@)[j] == u@;
            assert(uris_view(visited@)[j] != u@);
        }
    }
    false
}

/// The immutable configuration an invocation runs against.
#[verifier::ext_equal]
pub struct CfgV {
    pub envs: Seq<(UriV, Seq<u8>)>,
    pub interfaces: Seq<(UriV, Seq<UriV>)>,
    pub redirects: Seq<(UriV, UriV)>,
}

/// A fresh context.
pub open spec fn ctx_empty() -> CtxV {
    CtxV { visited: Seq::empty(), path: Seq::empty(), history: Seq::empty() }
}

/// The value of an optional byte vector.
pub open spec fn opt_bytes_view(o: Option<Vec<u8>>) -> Option<Seq<u8>> {
    match o {
        Some(b) => Some(b@),
        None => None,
    }
}

/// The message of the loader's error for a terminal `Uri` answer.
pub open spec fn load_error_message() -> Seq<char> {
    "resolution did not yield a wrapper or package"@
}

/// The message reported when a sub-invocation chain exceeds the depth bound.
pub open spec fn depth_error_message() -> Seq<char> {
    "sub-invocation depth limit reached"@
}

/// The implementations registered for `u`: the stored list, or none.
pub open spec fn impls_of(ifaces: Seq<(UriV, Seq<UriV>)>, u: UriV) -> Seq<UriV> {
    match iface_lookup(ifaces, u) {
        Some(l) => l,
        None => Seq::empty(),
    }
}

/// The byte answer of the implementations host call: each URI's canonical
/// form in UTF-8, each followed by one line feed, in registered order.
pub open spec fn impls_encoding(l: Seq<UriV>) -> Seq<u8>
    decreases l.len(),
{
    if l.len() == 0 {
        Seq::empty()
    } else {
        impls_encoding(l.drop_last()) + vstd::utf8::encode_utf8(
            crate::uri::uri_canonical(l.last()),
        ) + seq![10u8]
    }
}

/// The invocation relation, bounded by `fuel` sub-invocation levels: the
/// redirect list is applied to a fixed point, the environment is chosen, the
/// URI is resolved and loaded, and the wrapper's method is interpreted.
pub open spec fn invoke_post_f(
    cfg: CfgV,
    rpre: ResolverV,
    rpost: ResolverV,
    uri: UriV,
    method: Seq<char>,
    args: Seq<u8>,
    env: Option<Seq<u8>>,
    r: Result<Seq<u8>, ErrV>,
    cpre: CtxV,
    cpost: CtxV,
    fuel: nat,
) -> bool
    decreases fuel, 3nat,
{
    match redirect_walk(cfg.redirects, uri, Seq::empty(), cfg.redirects.len() + 1) {
        Err(e) => r == Err::<Seq<u8>, ErrV>(e) && rpost == rpre && cpost == cpre,
        Ok(ruri) => {
            let env_used = (if env is Some {
                env
            } else {
                env_lookup(cfg.envs, ruri)
            });
            exists|resr: Result<UpowV, ErrV>, rmid: ResolverV, cmid: CtxV|
                #[trigger] witness((resr, rmid, cmid)) && invoke_load_arm(
                    cfg,
                    rpre,
                    rmid,
                    rpost,
                    ruri,
                    method,
                    args,
                    env_used,
                    resr,
                    r,
                    cpre,
                    cmid,
                    cpost,
                    fuel,
                )
        },
    }
}

/// One possible load-and-dispatch: the resolver answered `resr` for `ruri`,
/// and the answer was turned into a wrapper and interpreted, or into an
/// error.
pub open spec fn invoke_load_arm(
    cfg: CfgV,
    rpre: ResolverV,
    rmid: ResolverV,
    rpost: ResolverV,
    ruri: UriV,
    method: Seq<char>,
    args: Seq<u8>,
    env_used: Option<Seq<u8>>,
    resr: Result<UpowV, ErrV>,
    r: Result<Seq<u8>, ErrV>,
    cpre: CtxV,
    cmid: CtxV,
    cpost: CtxV,
    fuel: nat,
) -> bool
    decreases fuel, 2nat,
{
    &&& resolve_post(rpre, rmid, ruri, resr, cpre, cmid)
    &&& match resr {
        Err(e) => r == Err::<Seq<u8>, ErrV>(e) && rpost == rmid && cpost == cmid,
        Ok(UpowV::Uri(u2)) => r == Err::<Seq<u8>, ErrV>(ErrV::LoadWrapper(load_error_message()))
            && rpost == rmid && cpost == cmid,
        Ok(UpowV::Wrapper(wu, w)) => wrapper_invoke_rel(
            cfg,
            rmid,
            rpost,
            wu,
            w,
            method,
            args,
            env_used,
            r,
            cmid,
            cpost,
            fuel,
        ),
        Ok(UpowV::Package(pu, p)) => match package_created_wrapper(p) {
            Err(e) => r == Err::<Seq<u8>, ErrV>(e) && rpost == rmid && cpost == cmid,
            Ok(w) => wrapper_invoke_rel(
                cfg,
                rmid,
                rpost,
                pu,
                w,
                method,
                args,
                env_used,
                r,
                cmid,
                cpost,
                fuel,
            ),
        },
    }
}

/// How invoking a method of a wrapper relates the configuration, the
/// resolver (sub-invocations re-resolve through it), the caller's context
/// (a sub-invocation appends one step carrying the child's history) and the
/// answer.
pub open spec fn wrapper_invoke_rel(
    cfg: CfgV,
    rpre: ResolverV,
    rpost: ResolverV,
    wuri: UriV,
    w: WrapperV,
    method: Seq<char>,
    args: Seq<u8>,
    env: Option<Seq<u8>>,
    r: Result<Seq<u8>, ErrV>,
    cpre: CtxV,
    cpost: CtxV,
    fuel: nat,
) -> bool
    decreases fuel, 1nat,
{
    match find_method(w.methods, method) {
        None => r == Err::<Seq<u8>, ErrV>(ErrV::MethodNotFound(wuri, method)) && rpost == rpre
            && cpost == cpre,
        Some(b) => match b {
            BehaviorV::Subinvoke { uri: su, method: sm } => {
                if fuel == 0 {
                    r == Err::<Seq<u8>, ErrV>(ErrV::Invoke(depth_error_message())) && rpost == rpre
                        && cpost == cpre
                } else {
                    exists|rsub: Result<Seq<u8>, ErrV>, csub: CtxV|
                        #[trigger] witness((rsub, csub)) && invoke_sub_arm(
                            cfg,
                            rpre,
                            rpost,
                            su,
                            sm,
                            args,
                            rsub,
                            csub,
                            r,
                            cpre,
                            cpost,
                            (fuel - 1) as nat,
                        )
                }
            },
            BehaviorV::ReturnImplementations { interface } => r == Ok::<Seq<u8>, ErrV>(
                impls_encoding(impls_of(cfg.interfaces, interface)),
            ) && rpost == rpre && cpost == cpre,
            _ => r == behavior_result(b, args, env) && rpost == rpre && cpost == cpre,
        },
    }
}

/// One possible sub-invocation: the child runs on a child sub-context — it
/// inherits the in-flight set and path but starts a fresh history — with no
/// environment handed down, the child's own registration decides; a child
/// error is wrapped so the parent can tell child failures apart; and the
/// parent's context gains one step whose sub-history is the child's.  The
/// step's result marks the re-entry URI on success; the sub-resolution's
/// own outcomes stand in the sub-history.
pub open spec fn invoke_sub_arm(
    cfg: CfgV,
    rpre: ResolverV,
    rpost: ResolverV,
    su: UriV,
    sm: Seq<char>,
    args: Seq<u8>,
    rsub: Result<Seq<u8>, ErrV>,
    csub: CtxV,
    r: Result<Seq<u8>, ErrV>,
    cpre: CtxV,
    cpost: CtxV,
    fuel: nat,
) -> bool
    decreases fuel, 4nat,
{
    &&& invoke_post_f(cfg, rpre, rpost, su, sm, args, None, rsub, ctx_sub(cpre), csub, fuel)
    &&& r == (match rsub {
        Ok(b) => Ok::<Seq<u8>, ErrV>(b),
        Err(e) => Err::<Seq<u8>, ErrV>(
            ErrV::Subinvocation { uri: su, method: sm, cause: Box::new(e) },
        ),
    })
    &&& exists|s: StepV|
        #[trigger] ctx_pushed(cpre, cpost, s) && s.source_uri == su && s.sub_history == Some(
            csub.history,
        ) && s.description is None && s.result == (match rsub {
            Ok(b) => Ok::<UpowV, ErrV>(UpowV::Uri(su)),
            Err(e) => Err::<UpowV, ErrV>(
                ErrV::Subinvocation { uri: su, method: sm, cause: Box::new(e) },
            ),
        })
}

/// How many sub-invocation levels one invocation may nest.
pub const MAX_SUBINVOKE_DEPTH: u64 = 64;

/// The implementations registered for `u`, as a copy; empty if none are.
pub fn iface_get(interfaces: &Vec<(Uri, Vec<Uri>)>, u: &Uri) -> (r: Vec<Uri>)
    ensures
        uris_view(r@) == impls_of(ifaces_view(interfaces@), u@),
{
    let ghost ifs = ifaces_view(interfaces@);
    proof {
        assert(ifs.skip(0) =~= ifs);
    }
    let mut i: usize = 0;
    while i < interfaces.len()
        invariant
            i <= interfaces@.len(),
            ifs == ifaces_view(interfaces@),
            iface_lookup(ifs, u@) == iface_lookup(ifs.skip(i as int), u@),
        decreases interfaces@.len() - i,
    {
        proof {
            assert(ifs.skip(i as int)[0] == ifs[i as int]);
        }
        if interfaces[i].0.eq_uri(u) {
            return crate::context::clone_uris(&interfaces[i].1);
        }
        i += 1;
        proof {
            assert(ifs.skip(i as int) =~= ifs.skip(i - 1).drop_first());
        }
    }
    proof {
        assert(ifs.skip(i as int).len() == 0);
    }
    let empty: Vec<Uri> = Vec::new();
    proof {
        assert(uris_view(empty@) =~= Seq::<UriV>::empty());
    }
    empty
}

/// Encodes an implementation list for the byte-level host surface.
fn encode_impls(impls: &Vec<Uri>) -> (r: Vec<u8>)
    ensures
        r@ == impls_encoding(uris_view(impls@)),
{
    let ghost l = uris_view(impls@);
    let mut out: Vec<u8> = Vec::new();
    proof {
        assert(out@ =~= impls_encoding(l.take(0)));
    }
    let mut i: usize = 0;
    while i < impls.len()
        invariant
            i <= impls@.len(),
            l == uris_view(impls@),
            out@ == impls_encoding(l.take(i as int)),
        decreases impls@.len() - i,
    {
        let s = impls[i].to_uri_string();
        let bs = s.as_str().as_bytes_vec();
        let ghost before = out@;
        let mut j: usize = 0;
        while j < bs.len()
            invariant
                j <= bs@.len(),
                out@ == before + bs@.take(j as int),
            decreases bs@.len() - j,
        {
            out.push(bs[j]);
            j += 1;
            proof {
                assert(out@ =~= before + bs@.take(j as int));
            }
        }
        out.push(10u8);
        i += 1;
        proof {
            assert(bs@.take(bs@.len() as int) =~= bs@);
            assert(l.take(i as int).drop_last() =~= l.take(i - 1));
            assert(l.take(i as int).last() == l[i - 1]);
            assert(out@ =~= impls_encoding(l.take(i as int)));
        }
    }
    proof {
        assert(l.take(i as int) =~= l);
    }
    out
}

/// Looks the environment up for `u`; a hit is returned as a copy.
pub fn env_get(envs: &Vec<(Uri, Vec<u8>)>, u: &Uri) -> (r: Option<Vec<u8>>)
    ensures
        opt_bytes_view(r) == env_lookup(envs_view(envs@), u@),
{
    let ghost es = envs_view(envs@);
    proof {
        assert(es.skip(0) =~= es);
    }
    let mut i: usize = 0;
    while i < envs.len()
        invariant
            i <= envs@.len(),
            es == envs_view(envs@),
            env_lookup(es, u@) == env_lookup(es.skip(i as int), u@),
        decreases envs@.len() - i,
    {
        proof {
            assert(es.skip(i as int)[0] == es[i as int]);
        }
        if envs[i].0.eq_uri(u) {
            return Some(clone_bytes(&envs[i].1));
        }
        i += 1;
        proof {
            assert(es.skip(i as int) =~= es.skip(i - 1).drop_first());
        }
    }
    proof {
        assert(es.skip(i as int).len() == 0);
    }
    None
}

/// Interprets one wrapper method: answers from the arguments and the
/// environment, aborts, or sub-invokes through the resolver, recording the
/// sub-invocation in the caller's context.
fn wrapper_exec(
    envs: &Vec<(Uri, Vec<u8>)>,
    interfaces: &Vec<(Uri, Vec<Uri>)>,
    redirects: &Vec<UriRedirect>,
    resolver: &mut Resolver,
    wuri: &Uri,
    w: &Wrapper,
    method: &Vec<char>,
    args: &Vec<u8>,
    env: Option<Vec<u8>>,
    ctx: &mut UriResolutionContext,
    depth: u64,
) -> (r: Result<Vec<u8>, WrapError>)
    ensures
        wrapper_invoke_rel(
            CfgV {
                envs: envs_view(envs@),
                interfaces: ifaces_view(interfaces@),
                redirects: redirects_view(redirects@),
            },
            old(resolver)@,
            final(resolver)@,
            wuri@,
            w@,
            method@,
            args@,
            opt_bytes_view(env),
            invoke_res_view(r),
            old(ctx)@,
            final(ctx)@,
            depth as nat,
        ),
        final(ctx)@.visited == old(ctx)@.visited,
        final(ctx)@.path == old(ctx)@.path,
        history_preserved(old(ctx)@, final(ctx)@),
    decreases depth, 0nat,
{
    let ghost cfg = CfgV {
        envs: envs_view(envs@),
        interfaces: ifaces_view(interfaces@),
        redirects: redirects_view(redirects@),
    };
    let ghost cpre = ctx@;
    proof {
        assert(cpre.history.subrange(0, cpre.history.len() as int) =~= cpre.history);
    }
    let found = w.get_method(method);
    match found {
        None => Err(WrapError::MethodNotFound(wuri.clone(), clone_chars(method))),
        Some(b) => {
            match b {
                MethodBehavior::ReturnArgs => Ok(clone_bytes(args)),
                MethodBehavior::ReturnConst(bytes) => Ok(clone_bytes(bytes)),
                MethodBehavior::ReturnEnv { required } => {
                    match env {
                        Some(e) => Ok(e),
                        None => {
                            if *required {
                                Err(
                                    WrapError::WrapperError(
                                        str_chars("Environment is not set, and it is required"),
                                    ),
                                )
                            } else {
                                let empty: Vec<u8> = Vec::new();
                                proof {
                                    assert(empty@ =~= Seq::<u8>::empty());
                                }
                                Ok(empty)
                            }
                        },
                    }
                },
                MethodBehavior::Abort(m) => Err(WrapError::WrapperError(clone_chars(m))),
                MethodBehavior::ReturnImplementations { interface } => {
                    let impls = iface_get(interfaces, interface);
                    Ok(encode_impls(&impls))
                },
                MethodBehavior::Subinvoke { uri: su, method: sm } => {
                    if depth == 0 {
                        Err(WrapError::InvokeError(str_chars("sub-invocation depth limit reached")))
                    } else {
                        let mut subctx = ctx.create_sub_history_context();
                        proof {
                            assert(subctx@ =~= ctx_sub(cpre));
                        }
                        let rsub = invoke_inner(
                            envs,
                            interfaces,
                            redirects,
                            resolver,
                            su,
                            sm,
                            args,
                            None,
                            &mut subctx,
                            depth - 1,
                        );
                        let ghost rsubv = invoke_res_view(rsub);
                        let ghost csub = subctx@;
                        let step_result: Result<UriPackageOrWrapper, WrapError> = match &rsub {
                            Ok(bts) => Ok(UriPackageOrWrapper::Uri(su.clone())),
                            Err(e) => Err(
                                WrapError::SubinvocationError {
                                    uri: su.clone(),
                                    method: clone_chars(sm),
                                    cause: Box::new(e.clone()),
                                },
                            ),
                        };
                        let UriResolutionContext { history: sub_hist, .. } = subctx;
                        let step = UriResolutionStep {
                            source_uri: su.clone(),
                            result: step_result,
                            description: None,
                            sub_history: Some(sub_hist),
                        };
                        let ghost sv = crate::context::step_view(step);
                        ctx.track_step(step);
                        let r: Result<Vec<u8>, WrapError> = match rsub {
                            Ok(bts) => Ok(bts),
                            Err(e) => Err(
                                WrapError::SubinvocationError {
                                    uri: su.clone(),
                                    method: clone_chars(sm),
                                    cause: Box::new(e),
                                },
                            ),
                        };
                        proof {
                            assert(ctx_pushed(cpre, ctx@, sv));
                            assert(sv.sub_history == Some(csub.history));
                            assert(invoke_sub_arm(
                                cfg,
                                old(resolver)@,
                                final(resolver)@,
                                su@,
                                sm@,
                                args@,
                                rsubv,
                                csub,
                                invoke_res_view(r),
                                cpre,
                                ctx@,
                                (depth - 1) as nat,
                            ));
                            assert(witness((rsubv, csub)) && invoke_sub_arm(
                                cfg,
                                old(resolver)@,
                                final(resolver)@,
                                su@,
                                sm@,
                                args@,
                                rsubv,
                                csub,
                                invoke_res_view(r),
                                cpre,
                                ctx@,
                                (depth - 1) as nat,
                            ));
                            assert(ctx@.history.subrange(0, cpre.history.len() as int)
                                =~= cpre.history);
                        }
                        r
                    }
                },
            }
        },
    }
}

/// The value of an invocation result.
pub open spec fn invoke_res_view(r: Result<Vec<u8>, WrapError>) -> Result<Seq<u8>, ErrV> {
    match r {
        Ok(b) => Ok(b@),
        Err(e) => Err(e@),
    }
}

/// Runs one invocation: applies the redirect list, chooses the environment,
/// resolves and loads the wrapper, and interprets the method.
fn invoke_inner(
    envs: &Vec<(Uri, Vec<u8>)>,
    interfaces: &Vec<(Uri, Vec<Uri>)>,
    redirects: &Vec<UriRedirect>,
    resolver: &mut Resolver,
    uri: &Uri,
    method: &Vec<char>,
    args: &Vec<u8>,
    env: Option<Vec<u8>>,
    ctx: &mut UriResolutionContext,
    depth: u64,
) -> (r: Result<Vec<u8>, WrapError>)
    ensures
        invoke_post_f(
            CfgV {
                envs: envs_view(envs@),
                interfaces: ifaces_view(interfaces@),
                redirects: redirects_view(redirects@),
            },
            old(resolver)@,
            final(resolver)@,
            uri@,
            method@,
            args@,
            opt_bytes_view(env),
            invoke_res_view(r),
            old(ctx)@,
            final(ctx)@,
            depth as nat,
        ),
        final(ctx)@.visited == old(ctx)@.visited,
        history_preserved(old(ctx)@, final(ctx)@),
        invoke_res_view(r) is Ok ==> (match redirect_walk(
            redirects_view(redirects@),
            uri@,
            Seq::empty(),
            redirects@.len() + 1,
        ) {
            Ok(ruri) => history_has_source(old(ctx)@, final(ctx)@, ruri),
            _ => true,
        }),
    decreases depth, 1nat,
{
    let ghost cfg = CfgV {
        envs: envs_view(envs@),
        interfaces: ifaces_view(interfaces@),
        redirects: redirects_view(redirects@),
    };
    let ghost cpre = ctx@;
    let ruri = match apply_redirects(redirects, uri) {
        Ok(u) => u,
        Err(e) => {
            proof {
                assert(ctx@.history.subrange(0, ctx@.history.len() as int) =~= ctx@.history);
            }
            return Err(e);
        },
    };
    let env_used: Option<Vec<u8>> = match env {
        Some(e) => Some(e),
        None => env_get(envs, &ruri),
    };
    let ghost envv = opt_bytes_view(env_used);
    let resr = resolver.try_resolve_uri(&ruri, ctx);
    let ghost rmid = resolver@;
    let ghost resrv = res_view(resr);
    let ghost cmid = ctx@;
    match resr {
        Err(e) => {
            let r: Result<Vec<u8>, WrapError> = Err(e);
            proof {
                assert(witness((resrv, rmid, cmid)) && invoke_load_arm(
                    cfg,
                    old(resolver)@,
                    rmid,
                    final(resolver)@,
                    ruri@,
                    method@,
                    args@,
                    envv,
                    resrv,
                    invoke_res_view(r),
                    cpre,
                    cmid,
                    ctx@,
                    depth as nat,
                ));
            }
            r
        },
        Ok(UriPackageOrWrapper::Uri(u2)) => {
            let r: Result<Vec<u8>, WrapError> = Err(
                WrapError::LoadWrapperError(
                    str_chars("resolution did not yield a wrapper or package"),
                ),
            );
            proof {
                assert(witness((resrv, rmid, cmid)) && invoke_load_arm(
                    cfg,
                    old(resolver)@,
                    rmid,
                    final(resolver)@,
                    ruri@,
                    method@,
                    args@,
                    envv,
                    resrv,
                    invoke_res_view(r),
                    cpre,
                    cmid,
                    ctx@,
                    depth as nat,
                ));
            }
            r
        },
        Ok(UriPackageOrWrapper::Wrapper(wu, w)) => {
            let r = wrapper_exec(
                envs,
                interfaces,
                redirects,
                resolver,
                &wu,
                &w,
                method,
                args,
                env_used,
                ctx,
                depth,
            );
            proof {
                assert(witness((resrv, rmid, cmid)) && invoke_load_arm(
                    cfg,
                    old(resolver)@,
                    rmid,
                    final(resolver)@,
                    ruri@,
                    method@,
                    args@,
                    envv,
                    resrv,
                    invoke_res_view(r),
                    cpre,
                    cmid,
                    ctx@,
                    depth as nat,
                ));
                lemma_history_preserved_trans(cpre, cmid, ctx@);
                if invoke_res_view(r) is Ok {
                    lemma_history_has_source_trans(cpre, cmid, ctx@, ruri@);
                }
            }
            r
        },
        Ok(UriPackageOrWrapper::Package(pu, p)) => {
            match p.create_wrapper() {
                Err(e) => {
                    let r: Result<Vec<u8>, WrapError> = Err(e);
                    proof {
                        assert(witness((resrv, rmid, cmid)) && invoke_load_arm(
                            cfg,
                            old(resolver)@,
                            rmid,
                            final(resolver)@,
                            ruri@,
                            method@,
                            args@,
                            envv,
                            resrv,
                            invoke_res_view(r),
                            cpre,
                            cmid,
                            ctx@,
                            depth as nat,
                        ));
                    }
                    r
                },
                Ok(w) => {
                    let r = wrapper_exec(
                        envs,
                        interfaces,
                        redirects,
                        resolver,
                        &pu,
                        &w,
                        method,
                        args,
                        env_used,
                        ctx,
                        depth,
                    );
                    proof {
                        assert(witness((resrv, rmid, cmid)) && invoke_load_arm(
                            cfg,
                            old(resolver)@,
                            rmid,
                            final(resolver)@,
                            ruri@,
                            method@,
                            args@,
                            envv,
                            resrv,
                            invoke_res_view(r),
                            cpre,
                            cmid,
                            ctx@,
                            depth as nat,
                        ));
                        lemma_history_preserved_trans(cpre, cmid, ctx@);
                        if invoke_res_view(r) is Ok {
                            lemma_history_has_source_trans(cpre, cmid, ctx@, ruri@);
                        }
                    }
                    r
                },
            }
        },
    }
}

/// The value of a wrapper-producing result.
pub open spec fn load_res_view(r: Result<Wrapper, WrapError>) -> Result<WrapperV, ErrV> {
    match r {
        Ok(w) => Ok(w@),
        Err(e) => Err(e@),
    }
}

/// One possible load: the resolver answered `resr`, and the answer was
/// turned into a wrapper, or into an error.
pub open spec fn load_arm(
    rpre: ResolverV,
    rpost: ResolverV,
    uri: UriV,
    resr: Result<UpowV, ErrV>,
    rv: Result<WrapperV, ErrV>,
    cpre: CtxV,
    cpost: CtxV,
) -> bool {
    &&& resolve_post(rpre, rpost, uri, resr, cpre, cpost)
    &&& match resr {
        Err(e) => rv == Err::<WrapperV, ErrV>(e),
        Ok(UpowV::Uri(u2)) => rv == Err::<WrapperV, ErrV>(ErrV::LoadWrapper(load_error_message())),
        Ok(UpowV::Wrapper(wu, w)) => rv == Ok::<WrapperV, ErrV>(w),
        Ok(UpowV::Package(pu, p)) => match package_created_wrapper(p) {
            Err(e) => rv == Err::<WrapperV, ErrV>(e),
            Ok(w) => rv == Ok::<WrapperV, ErrV>(w),
        },
    }
}

/// Binds the resolver, the environments, the interface implementations and
/// the redirect list into one handle for resolution and invocation.
pub struct PolywrapClient {
    pub resolver: Resolver,
    pub envs: Vec<(Uri, Vec<u8>)>,
    pub interfaces: Vec<(Uri, Vec<Uri>)>,
    pub redirects: Vec<UriRedirect>,
}

impl PolywrapClient {
    /// The configuration this client runs invocations against.
    pub open spec fn cfg(&self) -> CfgV {
        CfgV {
            envs: envs_view(self.envs@),
            interfaces: ifaces_view(self.interfaces@),
            redirects: redirects_view(self.redirects@),
        }
    }

    /// Builds a client over a resolver, with optional interface
    /// implementations and no environments or redirects.
    pub fn new(resolver: Resolver, interfaces: Option<Vec<(Uri, Vec<Uri>)>>) -> (r: Self)
        ensures
            r.resolver == resolver,
            r.cfg().envs == Seq::<(UriV, Seq<u8>)>::empty(),
            r.cfg().redirects == Seq::<(UriV, UriV)>::empty(),
            r.cfg().interfaces == (match interfaces {
                Some(i) => ifaces_view(i@),
                None => Seq::<(UriV, Seq<UriV>)>::empty(),
            }),
    {
        let ifs: Vec<(Uri, Vec<Uri>)> = match interfaces {
            Some(i) => i,
            None => Vec::new(),
        };
        let r = PolywrapClient {
            resolver,
            envs: Vec::new(),
            interfaces: ifs,
            redirects: Vec::new(),
        };
        proof {
            assert(envs_view(r.envs@) =~= Seq::<(UriV, Seq<u8>)>::empty());
            assert(redirects_view(r.redirects@) =~= Seq::<(UriV, UriV)>::empty());
            if r.interfaces@.len() == 0 {
                assert(ifaces_view(r.interfaces@) =~= Seq::<(UriV, Seq<UriV>)>::empty());
            }
        }
        r
    }

    /// The client with its environments replaced.
    pub fn environment(self, envs: Vec<(Uri, Vec<u8>)>) -> (r: Self)
        ensures
            r.resolver == self.resolver,
            r.cfg().envs == envs_view(envs@),
            r.cfg().interfaces == self.cfg().interfaces,
            r.cfg().redirects == self.cfg().redirects,
    {
        PolywrapClient {
            resolver: self.resolver,
            envs,
            interfaces: self.interfaces,
            redirects: self.redirects,
        }
    }

    /// The client with its redirect list replaced.
    pub fn redirects(self, redirects: Vec<UriRedirect>) -> (r: Self)
        ensures
            r.resolver == self.resolver,
            r.cfg().envs == self.cfg().envs,
            r.cfg().interfaces == self.cfg().interfaces,
            r.cfg().redirects == redirects_view(redirects@),
    {
        PolywrapClient {
            resolver: self.resolver,
            envs: self.envs,
            interfaces: self.interfaces,
            redirects,
        }
    }

    /// The redirect list.
    pub fn get_redirects(&self) -> (r: &Vec<UriRedirect>)
        ensures
            redirects_view(r@) == self.cfg().redirects,
    {
        &self.redirects
    }

    /// The environment registered for `uri`, if any, as a copy.
    pub fn get_env_by_uri(&self, uri: &Uri) -> (r: Option<Vec<u8>>)
        ensures
            opt_bytes_view(r) == env_lookup(self.cfg().envs, uri@),
    {
        env_get(&self.envs, uri)
    }

    /// The interface-implementations table.
    pub fn get_interfaces(&self) -> (r: &Vec<(Uri, Vec<Uri>)>)
        ensures
            ifaces_view(r@) == self.cfg().interfaces,
    {
        &self.interfaces
    }

    /// The implementations registered for `uri`, in their registered order;
    /// an empty list if none are.
    pub fn get_implementations(&self, uri: &Uri) -> (r: Result<Vec<Uri>, WrapError>)
        ensures
            r is Ok,
            uris_view(r->Ok_0@) == impls_of(self.cfg().interfaces, uri@),
    {
        Ok(iface_get(&self.interfaces, uri))
    }

    /// Resolves `uri` through this client's resolver.
    pub fn try_resolve_uri(&mut self, uri: &Uri, ctx: &mut UriResolutionContext) -> (r: Result<
        UriPackageOrWrapper,
        WrapError,
    >)
        ensures
            resolve_post(
                old(self).resolver@,
                final(self).resolver@,
                uri@,
                res_view(r),
                old(ctx)@,
                final(ctx)@,
            ),
            final(self).cfg() == old(self).cfg(),
            final(ctx)@.visited == old(ctx)@.visited,
            history_preserved(old(ctx)@, final(ctx)@),
            res_view(r) is Ok ==> history_has_source(old(ctx)@, final(ctx)@, uri@),
    {
        self.resolver.try_resolve_uri(uri, ctx)
    }

    /// Resolves `uri` and turns the answer into a wrapper: a ready wrapper
    /// is returned as it is, a package is asked to produce one, and a
    /// terminal `Uri` answer is a load error.
    pub fn load_wrapper(&mut self, uri: &Uri, ctx: &mut UriResolutionContext) -> (r: Result<
        Wrapper,
        WrapError,
    >)
        ensures
            exists|resr: Result<UpowV, ErrV>|
                #[trigger] witness(resr) && load_arm(
                    old(self).resolver@,
                    final(self).resolver@,
                    uri@,
                    resr,
                    load_res_view(r),
                    old(ctx)@,
                    final(ctx)@,
                ),
            final(self).cfg() == old(self).cfg(),
            final(ctx)@.visited == old(ctx)@.visited,
    {
        let resr = self.resolver.try_resolve_uri(uri, ctx);
        let ghost resrv = res_view(resr);
        match resr {
            Err(e) => {
                let r: Result<Wrapper, WrapError> = Err(e);
                proof {
                    assert(witness(resrv) && load_arm(
                        old(self).resolver@,
                        final(self).resolver@,
                        uri@,
                        resrv,
                        load_res_view(r),
                        old(ctx)@,
                        final(ctx)@,
                    ));
                }
                r
            },
            Ok(UriPackageOrWrapper::Uri(u2)) => {
                let r: Result<Wrapper, WrapError> = Err(
                    WrapError::LoadWrapperError(
                        str_chars("resolution did not yield a wrapper or package"),
                    ),
                );
                proof {
                    assert(witness(resrv) && load_arm(
                        old(self).resolver@,
                        final(self).resolver@,
                        uri@,
                        resrv,
                        load_res_view(r),
                        old(ctx)@,
                        final(ctx)@,
                    ));
                }
                r
            },
            Ok(UriPackageOrWrapper::Wrapper(wu, w)) => {
                let r: Result<Wrapper, WrapError> = Ok(w);
                proof {
                    assert(witness(resrv) && load_arm(
                        old(self).resolver@,
                        final(self).resolver@,
                        uri@,
                        resrv,
                        load_res_view(r),
                        old(ctx)@,
                        final(ctx)@,
                    ));
                }
                r
            },
            Ok(UriPackageOrWrapper::Package(pu, p)) => {
                let r = p.create_wrapper();
                proof {
                    assert(witness(resrv) && load_arm(
                        old(self).resolver@,
                        final(self).resolver@,
                        uri@,
                        resrv,
                        load_res_view(r),
                        old(ctx)@,
                        final(ctx)@,
                    ));
                }
                r
            },
        }
    }

    /// Invokes `method` on the wrapper that `uri` resolves to, with a fresh
    /// resolution context.  With no environment given, the one registered
    /// for the redirected URI applies.
    pub fn invoke(&mut self, uri: &Uri, method: &str, args: &Vec<u8>, env: Option<Vec<u8>>) -> (r:
        Result<Vec<u8>, WrapError>)
        ensures
            exists|cpost: CtxV|
                #[trigger] witness(cpost) && invoke_post_f(
                    old(self).cfg(),
                    old(self).resolver@,
                    final(self).resolver@,
                    uri@,
                    method@,
                    args@,
                    opt_bytes_view(env),
                    invoke_res_view(r),
                    ctx_empty(),
                    cpost,
                    MAX_SUBINVOKE_DEPTH as nat,
                ),
            final(self).cfg() == old(self).cfg(),
    {
        let mut ctx = UriResolutionContext::new();
        proof {
            assert(ctx@ =~= ctx_empty());
        }
        let r = self.invoke_with_ctx(uri, method, args, env, &mut ctx);
        proof {
            assert(witness(ctx@) && invoke_post_f(
                old(self).cfg(),
                old(self).resolver@,
                final(self).resolver@,
                uri@,
                method@,
                args@,
                opt_bytes_view(env),
                invoke_res_view(r),
                ctx_empty(),
                ctx@,
                MAX_SUBINVOKE_DEPTH as nat,
            ));
        }
        r
    }

    /// Invokes `method` on the wrapper that `uri` resolves to, recording
    /// resolution steps in `ctx`.  After a successful invocation the history
    /// holds a step whose source is the invoked (redirect-applied) URI.
    pub fn invoke_with_ctx(
        &mut self,
        uri: &Uri,
        method: &str,
        args: &Vec<u8>,
        env: Option<Vec<u8>>,
        ctx: &mut UriResolutionContext,
    ) -> (r: Result<Vec<u8>, WrapError>)
        ensures
            invoke_post_f(
                old(self).cfg(),
                old(self).resolver@,
                final(self).resolver@,
                uri@,
                method@,
                args@,
                opt_bytes_view(env),
                invoke_res_view(r),
                old(ctx)@,
                final(ctx)@,
                MAX_SUBINVOKE_DEPTH as nat,
            ),
            final(self).cfg() == old(self).cfg(),
            final(ctx)@.visited == old(ctx)@.visited,
            history_preserved(old(ctx)@, final(ctx)@),
            invoke_res_view(r) is Ok ==> (match redirect_walk(
                old(self).cfg().redirects,
                uri@,
                Seq::empty(),
                old(self).cfg().redirects.len() + 1,
            ) {
                Ok(ruri) => history_has_source(old(ctx)@, final(ctx)@, ruri),
                _ => true,
            }),
    {
        let m = str_chars(method);
        invoke_inner(
            &self.envs,
            &self.interfaces,
            &self.redirects,
            &mut self.resolver,
            uri,
            &m,
            args,
            env,
            ctx,
            MAX_SUBINVOKE_DEPTH,
        )
    }

    /// Invokes `method` on an already-loaded wrapper at `uri` with a fresh
    /// context, skipping redirect application, environment selection and
    /// resolution: the given environment, or none, is what the wrapper sees.
    pub fn invoke_wrapper(
        &mut self,
        wrapper: &Wrapper,
        uri: &Uri,
        method: &str,
        args: &Vec<u8>,
        env: Option<Vec<u8>>,
    ) -> (r: Result<Vec<u8>, WrapError>)
        ensures
            exists|cpost: CtxV|
                #[trigger] witness(cpost) && wrapper_invoke_rel(
                    old(self).cfg(),
                    old(self).resolver@,
                    final(self).resolver@,
                    uri@,
                    wrapper@,
                    method@,
                    args@,
                    opt_bytes_view(env),
                    invoke_res_view(r),
                    ctx_empty(),
                    cpost,
                    MAX_SUBINVOKE_DEPTH as nat,
                ),
            final(self).cfg() == old(self).cfg(),
    {
        let mut ctx = UriResolutionContext::new();
        proof {
            assert(ctx@ =~= ctx_empty());
        }
        let r = self.invoke_wrapper_with_ctx(wrapper, uri, method, args, env, &mut ctx);
        proof {
            assert(witness(ctx@) && wrapper_invoke_rel(
                old(self).cfg(),
                old(self).resolver@,
                final(self).resolver@,
                uri@,
                wrapper@,
                method@,
                args@,
                opt_bytes_view(env),
                invoke_res_view(r),
                ctx_empty(),
                ctx@,
                MAX_SUBINVOKE_DEPTH as nat,
            ));
        }
        r
    }

    /// Invokes `method` on an already-loaded wrapper at `uri`, recording any
    /// sub-invocation it issues in `ctx`.
    pub fn invoke_wrapper_with_ctx(
        &mut self,
        wrapper: &Wrapper,
        uri: &Uri,
        method: &str,
        args: &Vec<u8>,
        env: Option<Vec<u8>>,
        ctx: &mut UriResolutionContext,
    ) -> (r: Result<Vec<u8>, WrapError>)
        ensures
            wrapper_invoke_rel(
                old(self).cfg(),
                old(self).resolver@,
                final(self).resolver@,
                uri@,
                wrapper@,
                method@,
                args@,
                opt_bytes_view(env),
                invoke_res_view(r),
                old(ctx)@,
                final(ctx)@,
                MAX_SUBINVOKE_DEPTH as nat,
            ),
            final(self).cfg() == old(self).cfg(),
            final(ctx)@.visited == old(ctx)@.visited,
            history_preserved(old(ctx)@, final(ctx)@),
    {
        let m = str_chars(method);
        wrapper_exec(
            &self.envs,
            &self.interfaces,
            &self.redirects,
            &mut self.resolver,
            uri,
            wrapper,
            &m,
            args,
            env,
            ctx,
            MAX_SUBINVOKE_DEPTH,
        )
    }
}

} // verus!

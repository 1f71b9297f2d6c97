use wrap_client::uri::{Uri, UriRedirect, str_chars};
use wrap_client::error::WrapError;
use wrap_client::context::{UriPackageOrWrapper, UriResolutionContext};
use wrap_client::resolvers::{
    Resolver, LeafResolver, RedirectResolver, StaticResolver, UriResolverAggregator,
    ResolutionResultCacheResolver,
};
use wrap_client::wrapper::{Wrapper, MethodBehavior};
use wrap_client::client::apply_redirects;

fn uri(s: &str) -> Uri {
    Uri::parse(s).unwrap()
}

fn echo_wrapper() -> Wrapper {
    let mut w = Wrapper::new();
    w.add_method(str_chars("echo"), MethodBehavior::ReturnArgs);
    w
}

#[test]
fn static_resolver_answers_its_table() {
    let a = uri("wrap://ens/a");
    let w = echo_wrapper();
    let mut r = Resolver::Static(StaticResolver::new(vec![(
        a.clone(),
        UriPackageOrWrapper::Wrapper(a.clone(), w),
    )]));
    let mut ctx = UriResolutionContext::new();
    let out = r.try_resolve_uri(&a, &mut ctx).unwrap();
    match out {
        UriPackageOrWrapper::Wrapper(u, _) => assert!(u.eq_uri(&a)),
        _ => panic!("expected a wrapper"),
    }
    assert_eq!(ctx.get_history().len(), 1);
    assert!(ctx.get_history()[0].source_uri.eq_uri(&a));
}

#[test]
fn static_resolver_reports_not_found() {
    let a = uri("wrap://ens/a");
    let b = uri("wrap://ens/b");
    let mut r = Resolver::Static(StaticResolver::new(vec![(
        a.clone(),
        UriPackageOrWrapper::Uri(a.clone()),
    )]));
    let mut ctx = UriResolutionContext::new();
    let out = r.try_resolve_uri(&b, &mut ctx);
    assert!(matches!(out, Err(WrapError::NotFound)));
}

#[test]
fn redirect_resolver_redirects_its_source_only() {
    let a = uri("wrap://ens/a");
    let b = uri("wrap://ens/b");
    let mut r = Resolver::Redirect(RedirectResolver::new(a.clone(), b.clone()));
    let mut ctx = UriResolutionContext::new();
    match r.try_resolve_uri(&a, &mut ctx).unwrap() {
        UriPackageOrWrapper::Uri(u) => assert!(u.eq_uri(&b)),
        _ => panic!("expected a uri"),
    }
    let out = r.try_resolve_uri(&b, &mut ctx);
    assert!(matches!(out, Err(WrapError::NotFound)));
}

#[test]
fn recursive_resolver_follows_redirect_chain() {
    // a redirect chain: the table sends A to B and B to a wrapper
    let a = uri("wrap://ens/a");
    let b = uri("wrap://ens/b");
    let w = echo_wrapper();
    let mut r = Resolver::Recursive(Box::new(Resolver::Static(StaticResolver::new(vec![
        (a.clone(), UriPackageOrWrapper::Uri(b.clone())),
        (b.clone(), UriPackageOrWrapper::Wrapper(b.clone(), w)),
    ]))));
    let mut ctx = UriResolutionContext::new();
    match r.try_resolve_uri(&a, &mut ctx).unwrap() {
        UriPackageOrWrapper::Wrapper(u, _) => assert!(u.eq_uri(&b)),
        _ => panic!("expected a wrapper"),
    }
    let path = ctx.get_resolution_path();
    assert_eq!(path.len(), 2);
    assert!(path[0].eq_uri(&a));
    assert!(path[1].eq_uri(&b));
    // two steps were recorded: one for A, one for B
    assert_eq!(ctx.get_history().len(), 2);
    assert!(ctx.get_history()[0].source_uri.eq_uri(&a));
    assert!(ctx.get_history()[1].source_uri.eq_uri(&b));
    // the in-flight set is wound back
    assert_eq!(ctx.visited.len(), 0);
}

#[test]
fn recursive_resolver_rejects_cycle() {
    // a two-member cycle is detected and reported
    let a = uri("wrap://ens/a");
    let b = uri("wrap://ens/b");
    let mut r = Resolver::Recursive(Box::new(Resolver::Static(StaticResolver::new(vec![
        (a.clone(), UriPackageOrWrapper::Uri(b.clone())),
        (b.clone(), UriPackageOrWrapper::Uri(a.clone())),
    ]))));
    let mut ctx = UriResolutionContext::new();
    let out = r.try_resolve_uri(&a, &mut ctx);
    match out {
        Err(WrapError::InfiniteLoop(u)) => assert!(u.eq_uri(&a)),
        _ => panic!("expected a cycle rejection"),
    }
}

#[test]
fn recursive_resolver_stops_at_fixed_point() {
    let a = uri("wrap://ens/a");
    let mut r = Resolver::Recursive(Box::new(Resolver::Static(StaticResolver::new(vec![(
        a.clone(),
        UriPackageOrWrapper::Uri(a.clone()),
    )]))));
    let mut ctx = UriResolutionContext::new();
    match r.try_resolve_uri(&a, &mut ctx).unwrap() {
        UriPackageOrWrapper::Uri(u) => assert!(u.eq_uri(&a)),
        _ => panic!("expected the fixed point"),
    }
}

#[test]
fn aggregator_first_child_wins() {
    // both children would answer; the first decides
    let a = uri("wrap://ens/a");
    let x = uri("wrap://ens/x");
    let w = echo_wrapper();
    let mut r = Resolver::Aggregator(UriResolverAggregator::new(vec![
        LeafResolver::Redirect(RedirectResolver::new(a.clone(), x.clone())),
        LeafResolver::Static(StaticResolver::new(vec![(
            a.clone(),
            UriPackageOrWrapper::Wrapper(a.clone(), w),
        )])),
    ]));
    let mut ctx = UriResolutionContext::new();
    match r.try_resolve_uri(&a, &mut ctx).unwrap() {
        UriPackageOrWrapper::Uri(u) => assert!(u.eq_uri(&x)),
        _ => panic!("the first child's answer must win"),
    }
    // one composite step, carrying the children's sub-history
    assert_eq!(ctx.get_history().len(), 1);
    assert!(ctx.get_history()[0].sub_history.is_some());
}

#[test]
fn aggregator_tries_next_on_not_found() {
    let a = uri("wrap://ens/a");
    let b = uri("wrap://ens/b");
    let w = echo_wrapper();
    let mut r = Resolver::Aggregator(UriResolverAggregator::new(vec![
        LeafResolver::Redirect(RedirectResolver::new(b.clone(), a.clone())),
        LeafResolver::Static(StaticResolver::new(vec![(
            a.clone(),
            UriPackageOrWrapper::Wrapper(a.clone(), w),
        )])),
    ]));
    let mut ctx = UriResolutionContext::new();
    match r.try_resolve_uri(&a, &mut ctx).unwrap() {
        UriPackageOrWrapper::Wrapper(u, _) => assert!(u.eq_uri(&a)),
        _ => panic!("the second child must answer"),
    }
}

#[test]
fn cache_answers_second_resolution_from_cache() {
    // the second resolution of the same URI is a cache hit
    let a = uri("wrap://ens/a");
    let w = echo_wrapper();
    let mut r = Resolver::Cache(ResolutionResultCacheResolver::new(Box::new(
        Resolver::Recursive(Box::new(Resolver::Static(StaticResolver::new(vec![(
            a.clone(),
            UriPackageOrWrapper::Wrapper(a.clone(), w),
        )])))),
    )));
    let mut ctx1 = UriResolutionContext::new();
    let first = r.try_resolve_uri(&a, &mut ctx1).unwrap();
    assert!(matches!(first, UriPackageOrWrapper::Wrapper(_, _)));
    // the first step is composite: it carries a sub-history
    assert_eq!(ctx1.get_history().len(), 1);
    assert!(ctx1.get_history()[0].sub_history.is_some());

    let mut ctx2 = UriResolutionContext::new();
    let second = r.try_resolve_uri(&a, &mut ctx2).unwrap();
    assert!(matches!(second, UriPackageOrWrapper::Wrapper(_, _)));
    // the second step is a bare cache hit: no sub-resolution ran
    assert_eq!(ctx2.get_history().len(), 1);
    assert!(ctx2.get_history()[0].sub_history.is_none());
    assert!(
        ctx2.get_history()[0].description.as_ref().unwrap()
            == &str_chars("ResolutionResultCacheResolver (Cache)")
    );
}

#[test]
fn cache_seeds_the_whole_path() {
    // after resolving A through the chain A -> B -> wrapper, the
    // intermediate B is a cache hit too
    let a = uri("wrap://ens/a");
    let b = uri("wrap://ens/b");
    let w = echo_wrapper();
    let mut r = Resolver::Cache(ResolutionResultCacheResolver::new(Box::new(
        Resolver::Recursive(Box::new(Resolver::Static(StaticResolver::new(vec![
            (a.clone(), UriPackageOrWrapper::Uri(b.clone())),
            (b.clone(), UriPackageOrWrapper::Wrapper(b.clone(), w)),
        ])))),
    )));
    let mut ctx1 = UriResolutionContext::new();
    let first = r.try_resolve_uri(&a, &mut ctx1).unwrap();
    assert!(matches!(first, UriPackageOrWrapper::Wrapper(_, _)));

    let mut ctx2 = UriResolutionContext::new();
    let second = r.try_resolve_uri(&b, &mut ctx2).unwrap();
    assert!(matches!(second, UriPackageOrWrapper::Wrapper(_, _)));
    assert_eq!(ctx2.get_history().len(), 1);
    assert!(ctx2.get_history()[0].sub_history.is_none());
}

#[test]
fn cache_does_not_store_failures() {
    let a = uri("wrap://ens/a");
    let mut r = Resolver::Cache(ResolutionResultCacheResolver::new(Box::new(Resolver::Static(
        StaticResolver::new(vec![]),
    ))));
    let mut ctx1 = UriResolutionContext::new();
    assert!(r.try_resolve_uri(&a, &mut ctx1).is_err());
    // still a miss the second time: the failure was not cached
    let mut ctx2 = UriResolutionContext::new();
    assert!(r.try_resolve_uri(&a, &mut ctx2).is_err());
    assert!(ctx2.get_history()[0].sub_history.is_some());
}

#[test]
fn redirect_list_reaches_fixed_point() {
    // two redirects, applied in two steps
    let a = uri("wrap://ens/a");
    let b = uri("wrap://ens/b");
    let c = uri("wrap://ens/c");
    let redirects = vec![
        UriRedirect::new(a.clone(), b.clone()),
        UriRedirect::new(b.clone(), c.clone()),
    ];
    let out = apply_redirects(&redirects, &a).unwrap();
    assert!(out.eq_uri(&c));
    let out2 = apply_redirects(&redirects, &c).unwrap();
    assert!(out2.eq_uri(&c));
}

#[test]
fn redirect_list_first_match_wins() {
    let a = uri("wrap://ens/a");
    let b = uri("wrap://ens/b");
    let c = uri("wrap://ens/c");
    let redirects = vec![
        UriRedirect::new(a.clone(), b.clone()),
        UriRedirect::new(a.clone(), c.clone()),
    ];
    let out = apply_redirects(&redirects, &a).unwrap();
    assert!(out.eq_uri(&b));
}

#[test]
fn redirect_cycle_is_rejected() {
    let a = uri("wrap://ens/a");
    let b = uri("wrap://ens/b");
    let redirects = vec![
        UriRedirect::new(a.clone(), b.clone()),
        UriRedirect::new(b.clone(), a.clone()),
    ];
    let out = apply_redirects(&redirects, &a);
    assert!(matches!(out, Err(WrapError::InfiniteLoop(_))));
}

#[test]
fn empty_redirect_list_is_identity() {
    let a = uri("wrap://ens/a");
    let out = apply_redirects(&vec![], &a).unwrap();
    assert!(out.eq_uri(&a));
}

#[test]
fn recursive_resolver_rejects_longer_cycle() {
    // a three-member cycle is detected too
    let a = uri("wrap://ens/a");
    let b = uri("wrap://ens/b");
    let c = uri("wrap://ens/c");
    let mut r = Resolver::Recursive(Box::new(Resolver::Static(StaticResolver::new(vec![
        (a.clone(), UriPackageOrWrapper::Uri(b.clone())),
        (b.clone(), UriPackageOrWrapper::Uri(c.clone())),
        (c.clone(), UriPackageOrWrapper::Uri(a.clone())),
    ]))));
    let mut ctx = UriResolutionContext::new();
    let out = r.try_resolve_uri(&b, &mut ctx);
    match out {
        Err(WrapError::InfiniteLoop(u)) => assert!(u.eq_uri(&b)),
        _ => panic!("expected a cycle rejection"),
    }
}

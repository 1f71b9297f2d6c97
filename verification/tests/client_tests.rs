use wrap_client::uri::{Uri, UriRedirect, str_chars};
use wrap_client::error::WrapError;
use wrap_client::context::{UriPackageOrWrapper, UriResolutionContext};
use wrap_client::resolvers::{Resolver, StaticResolver};
use wrap_client::wrapper::{Wrapper, MethodBehavior};
use wrap_client::package::{WrapPackage, PluginPackage, WrapPackageEntry};
use wrap_client::client::PolywrapClient;

fn uri(s: &str) -> Uri {
    Uri::parse(s).unwrap()
}

fn echo_wrapper() -> Wrapper {
    let mut w = Wrapper::new();
    w.add_method(str_chars("echo"), MethodBehavior::ReturnArgs);
    w
}

fn static_client(entries: Vec<(Uri, UriPackageOrWrapper)>) -> PolywrapClient {
    PolywrapClient::new(Resolver::Static(StaticResolver::new(entries)), None)
}

#[test]
fn invoke_echo_returns_arguments() {
    // one static entry, one invocation, one history step
    let a = uri("wrap://ens/a");
    let mut client = static_client(vec![(
        a.clone(),
        UriPackageOrWrapper::Wrapper(a.clone(), echo_wrapper()),
    )]);
    let mut ctx = UriResolutionContext::new();
    let out = client
        .invoke_with_ctx(&a, "echo", &vec![0x01, 0x02], None, &mut ctx)
        .unwrap();
    assert_eq!(out, vec![0x01, 0x02]);
    assert_eq!(ctx.get_history().len(), 1);
    assert!(ctx.get_history()[0].source_uri.eq_uri(&a));
    assert!(ctx.get_history()[0].result.is_ok());
}

#[test]
fn invoke_missing_method_is_method_not_found() {
    let a = uri("wrap://ens/a");
    let mut client = static_client(vec![(
        a.clone(),
        UriPackageOrWrapper::Wrapper(a.clone(), echo_wrapper()),
    )]);
    let out = client.invoke(&a, "missing", &vec![], None);
    match out {
        Err(WrapError::MethodNotFound(u, m)) => {
            assert!(u.eq_uri(&a));
            assert!(m == str_chars("missing"));
        },
        _ => panic!("expected a missing-method error"),
    }
}

#[test]
fn invoke_terminal_uri_is_a_load_error() {
    let a = uri("wrap://ens/a");
    let b = uri("wrap://ens/b");
    let mut client = static_client(vec![(a.clone(), UriPackageOrWrapper::Uri(b.clone()))]);
    let out = client.invoke(&a, "echo", &vec![], None);
    match out {
        Err(WrapError::LoadWrapperError(m)) => {
            assert!(m == str_chars("resolution did not yield a wrapper or package"));
        },
        _ => panic!("expected a load error"),
    }
}

#[test]
fn invoke_through_package_creates_wrapper() {
    let a = uri("wrap://ens/a");
    let pkg = WrapPackageEntry::Plugin(PluginPackage::new(echo_wrapper()));
    let mut client = static_client(vec![(
        a.clone(),
        UriPackageOrWrapper::Package(a.clone(), pkg),
    )]);
    let out = client.invoke(&a, "echo", &vec![7], None).unwrap();
    assert_eq!(out, vec![7]);
}

#[test]
fn invoke_applies_top_level_redirects() {
    let a = uri("wrap://ens/a");
    let b = uri("wrap://ens/b");
    let mut client = static_client(vec![(
        b.clone(),
        UriPackageOrWrapper::Wrapper(b.clone(), echo_wrapper()),
    )])
    .redirects(vec![UriRedirect::new(a.clone(), b.clone())]);
    let out = client.invoke(&a, "echo", &vec![9], None).unwrap();
    assert_eq!(out, vec![9]);
}

#[test]
fn invoke_uses_registered_env() {
    let a = uri("wrap://ens/a");
    let mut w = Wrapper::new();
    w.add_method(str_chars("methodRequireEnv"), MethodBehavior::ReturnEnv { required: true });
    let mut client = static_client(vec![(
        a.clone(),
        UriPackageOrWrapper::Wrapper(a.clone(), w),
    )])
    .environment(vec![(a.clone(), vec![0xAA, 0xBB])]);
    let out = client.invoke(&a, "methodRequireEnv", &vec![], None).unwrap();
    assert_eq!(out, vec![0xAA, 0xBB]);
}

#[test]
fn invoke_missing_required_env_aborts() {
    // the wrapper requires an environment and none is registered
    let a = uri("wrap://ens/a");
    let mut w = Wrapper::new();
    w.add_method(str_chars("methodRequireEnv"), MethodBehavior::ReturnEnv { required: true });
    let mut client = static_client(vec![(
        a.clone(),
        UriPackageOrWrapper::Wrapper(a.clone(), w),
    )]);
    let out = client.invoke(&a, "methodRequireEnv", &vec![], None);
    match out {
        Err(WrapError::WrapperError(m)) => {
            assert!(m == str_chars("Environment is not set, and it is required"));
        },
        _ => panic!("expected the wrapper to abort"),
    }
}

#[test]
fn invoke_optional_env_defaults_to_empty() {
    let a = uri("wrap://ens/a");
    let mut w = Wrapper::new();
    w.add_method(str_chars("methodOptionalEnv"), MethodBehavior::ReturnEnv { required: false });
    let mut client = static_client(vec![(
        a.clone(),
        UriPackageOrWrapper::Wrapper(a.clone(), w),
    )]);
    let out = client.invoke(&a, "methodOptionalEnv", &vec![], None).unwrap();
    assert_eq!(out, Vec::<u8>::new());
}

#[test]
fn subinvoker_env_is_not_handed_down() {
    // the child sees its own registration, not the parent's environment
    let parent = uri("wrap://ens/parent");
    let child = uri("wrap://ens/child");
    let mut pw = Wrapper::new();
    pw.add_method(
        str_chars("callChildRequireEnv"),
        MethodBehavior::Subinvoke { uri: child.clone(), method: str_chars("methodRequireEnv") },
    );
    let mut cw = Wrapper::new();
    cw.add_method(str_chars("methodRequireEnv"), MethodBehavior::ReturnEnv { required: true });
    let mut client = static_client(vec![
        (parent.clone(), UriPackageOrWrapper::Wrapper(parent.clone(), pw)),
        (child.clone(), UriPackageOrWrapper::Wrapper(child.clone(), cw)),
    ])
    .environment(vec![
        (parent.clone(), vec![0x01]),
        (child.clone(), vec![0x02]),
    ]);
    let out = client.invoke(&parent, "callChildRequireEnv", &vec![], None).unwrap();
    assert_eq!(out, vec![0x02]);
}

#[test]
fn subinvoked_child_without_env_aborts() {
    // the parent has an environment, the child has none: the child must not
    // inherit it, so a required environment is missing
    let parent = uri("wrap://ens/parent");
    let child = uri("wrap://ens/child");
    let mut pw = Wrapper::new();
    pw.add_method(
        str_chars("callChildRequireEnv"),
        MethodBehavior::Subinvoke { uri: child.clone(), method: str_chars("methodRequireEnv") },
    );
    let mut cw = Wrapper::new();
    cw.add_method(str_chars("methodRequireEnv"), MethodBehavior::ReturnEnv { required: true });
    let mut client = static_client(vec![
        (parent.clone(), UriPackageOrWrapper::Wrapper(parent.clone(), pw)),
        (child.clone(), UriPackageOrWrapper::Wrapper(child.clone(), cw)),
    ])
    .environment(vec![(parent.clone(), vec![0x01])]);
    let out = client.invoke(&parent, "callChildRequireEnv", &vec![], None);
    match out {
        Err(WrapError::SubinvocationError { uri: u, method, cause }) => {
            assert!(u.eq_uri(&child));
            assert!(method == str_chars("methodRequireEnv"));
            assert!(matches!(*cause, WrapError::WrapperError(_)));
        },
        _ => panic!("expected a wrapped child failure"),
    }
}

#[test]
fn subinvocation_forwards_arguments_and_result() {
    let parent = uri("wrap://ens/parent");
    let child = uri("wrap://ens/child");
    let mut pw = Wrapper::new();
    pw.add_method(
        str_chars("forward"),
        MethodBehavior::Subinvoke { uri: child.clone(), method: str_chars("echo") },
    );
    let mut client = static_client(vec![
        (parent.clone(), UriPackageOrWrapper::Wrapper(parent.clone(), pw)),
        (child.clone(), UriPackageOrWrapper::Wrapper(child.clone(), echo_wrapper())),
    ]);
    let out = client.invoke(&parent, "forward", &vec![1, 2, 3], None).unwrap();
    assert_eq!(out, vec![1, 2, 3]);
}

#[test]
fn endless_subinvocation_hits_the_depth_limit() {
    let a = uri("wrap://ens/a");
    let mut w = Wrapper::new();
    w.add_method(
        str_chars("loop"),
        MethodBehavior::Subinvoke { uri: a.clone(), method: str_chars("loop") },
    );
    let mut client = static_client(vec![(
        a.clone(),
        UriPackageOrWrapper::Wrapper(a.clone(), w),
    )]);
    let out = client.invoke(&a, "loop", &vec![], None);
    assert!(matches!(out, Err(WrapError::SubinvocationError { .. })));
}

#[test]
fn abort_behavior_is_a_wrapper_error() {
    let a = uri("wrap://ens/a");
    let mut w = Wrapper::new();
    w.add_method(str_chars("boom"), MethodBehavior::Abort(str_chars("gone")));
    let mut client = static_client(vec![(
        a.clone(),
        UriPackageOrWrapper::Wrapper(a.clone(), w),
    )]);
    let out = client.invoke(&a, "boom", &vec![], None);
    match out {
        Err(WrapError::WrapperError(m)) => assert!(m == str_chars("gone")),
        _ => panic!("expected an abort"),
    }
}

#[test]
fn invoke_wrapper_skips_resolution() {
    let a = uri("wrap://ens/a");
    let mut client = static_client(vec![]);
    let w = echo_wrapper();
    let out = client.invoke_wrapper(&w, &a, "echo", &vec![5], None).unwrap();
    assert_eq!(out, vec![5]);
}

#[test]
fn load_wrapper_from_package() {
    let a = uri("wrap://ens/a");
    let pkg = WrapPackageEntry::Plugin(PluginPackage::new(echo_wrapper()));
    let mut client = static_client(vec![(
        a.clone(),
        UriPackageOrWrapper::Package(a.clone(), pkg),
    )]);
    let mut ctx = UriResolutionContext::new();
    let w = client.load_wrapper(&a, &mut ctx).unwrap();
    assert_eq!(w.methods.len(), 1);
}

#[test]
fn get_env_by_uri_answers_exactly() {
    let a = uri("wrap://ens/a");
    let b = uri("wrap://ens/b");
    let client = static_client(vec![]).environment(vec![(a.clone(), vec![1, 2])]);
    assert_eq!(client.get_env_by_uri(&a), Some(vec![1, 2]));
    assert_eq!(client.get_env_by_uri(&b), None);
}

#[test]
fn get_implementations_preserves_order() {
    let i = uri("wrap://ens/interface");
    let a = uri("wrap://ens/a");
    let b = uri("wrap://ens/b");
    let client = PolywrapClient::new(
        Resolver::Static(StaticResolver::new(vec![])),
        Some(vec![(i.clone(), vec![a.clone(), b.clone()])]),
    );
    let impls = client.get_implementations(&i).unwrap();
    assert_eq!(impls.len(), 2);
    assert!(impls[0].eq_uri(&a));
    assert!(impls[1].eq_uri(&b));
    let none = client.get_implementations(&a).unwrap();
    assert_eq!(none.len(), 0);
}

#[test]
fn get_redirects_returns_the_list() {
    let a = uri("wrap://ens/a");
    let b = uri("wrap://ens/b");
    let client = static_client(vec![]).redirects(vec![UriRedirect::new(a.clone(), b.clone())]);
    assert_eq!(client.get_redirects().len(), 1);
    assert!(client.get_redirects()[0].from.eq_uri(&a));
}

#[test]
fn try_resolve_uri_through_client() {
    let a = uri("wrap://ens/a");
    let b = uri("wrap://ens/b");
    let mut client = static_client(vec![(a.clone(), UriPackageOrWrapper::Uri(b.clone()))]);
    let mut ctx = UriResolutionContext::new();
    match client.try_resolve_uri(&a, &mut ctx).unwrap() {
        UriPackageOrWrapper::Uri(u) => assert!(u.eq_uri(&b)),
        _ => panic!("expected a uri"),
    }
}

#[test]
fn plugin_package_produces_its_wrapper() {
    let p = PluginPackage::new(echo_wrapper());
    let w = p.create_wrapper().unwrap();
    assert_eq!(w.methods.len(), 1);
    assert!(w.methods[0].name == str_chars("echo"));
}

#[test]
fn first_env_entry_wins_for_equal_keys() {
    let a = uri("wrap://ens/a");
    let client = static_client(vec![]).environment(vec![
        (a.clone(), vec![1]),
        (a.clone(), vec![2]),
    ]);
    assert_eq!(client.get_env_by_uri(&a), Some(vec![1]));
}

#[test]
fn subinvocation_attaches_child_history_to_parent_context() {
    // the parent's context gains one step for the sub-invocation, carrying
    // the child's resolution history as its sub-history
    let parent = uri("wrap://ens/parent");
    let child = uri("wrap://ens/child");
    let mut pw = Wrapper::new();
    pw.add_method(
        str_chars("forward"),
        MethodBehavior::Subinvoke { uri: child.clone(), method: str_chars("echo") },
    );
    let mut client = static_client(vec![
        (parent.clone(), UriPackageOrWrapper::Wrapper(parent.clone(), pw)),
        (child.clone(), UriPackageOrWrapper::Wrapper(child.clone(), echo_wrapper())),
    ]);
    let mut ctx = UriResolutionContext::new();
    let out = client.invoke_with_ctx(&parent, "forward", &vec![4], None, &mut ctx).unwrap();
    assert_eq!(out, vec![4]);
    // one step for the parent's resolution, one for the sub-invocation
    assert_eq!(ctx.get_history().len(), 2);
    assert!(ctx.get_history()[0].source_uri.eq_uri(&parent));
    assert!(ctx.get_history()[1].source_uri.eq_uri(&child));
    let sub = ctx.get_history()[1].sub_history.as_ref().unwrap();
    assert_eq!(sub.len(), 1);
    assert!(sub[0].source_uri.eq_uri(&child));
}

#[test]
fn wrapper_lists_implementations_through_host() {
    // the host answers the registered list, canonical forms separated by
    // line feeds, in registered order
    let i = uri("wrap://ens/interface");
    let a = uri("wrap://ens/a");
    let b = uri("wrap://ens/b");
    let w_uri = uri("wrap://ens/w");
    let mut w = Wrapper::new();
    w.add_method(
        str_chars("listImplementations"),
        MethodBehavior::ReturnImplementations { interface: i.clone() },
    );
    let mut client = PolywrapClient::new(
        Resolver::Static(StaticResolver::new(vec![(
            w_uri.clone(),
            UriPackageOrWrapper::Wrapper(w_uri.clone(), w),
        )])),
        Some(vec![(i.clone(), vec![a.clone(), b.clone()])]),
    );
    let out = client.invoke(&w_uri, "listImplementations", &vec![], None).unwrap();
    assert_eq!(out, b"wrap://ens/a\nwrap://ens/b\n".to_vec());
}

#[test]
fn wrapper_lists_no_implementations_as_empty() {
    let i = uri("wrap://ens/interface");
    let w_uri = uri("wrap://ens/w");
    let mut w = Wrapper::new();
    w.add_method(
        str_chars("listImplementations"),
        MethodBehavior::ReturnImplementations { interface: i.clone() },
    );
    let mut client = static_client(vec![(
        w_uri.clone(),
        UriPackageOrWrapper::Wrapper(w_uri.clone(), w),
    )]);
    let out = client.invoke(&w_uri, "listImplementations", &vec![], None).unwrap();
    assert_eq!(out, Vec::<u8>::new());
}

use vstd::prelude::*;
use crate::uri::{Uri, UriV, clone_chars, clone_bytes, chars_eq};
use crate::error::ErrV;

verus! {

/// Mathematical value of a [`MethodBehavior`].
#[verifier::ext_equal]
pub enum BehaviorV {
    ReturnArgs,
    ReturnConst(Seq<u8>),
    ReturnEnv { required: bool },
    Abort(Seq<char>),
    Subinvoke { uri: UriV, method: Seq<char> },
    ReturnImplementations { interface: UriV },
}

/// What a wrapper method does when invoked.
///
/// A wrapper here is a native, data-driven implementation of the wrapper
/// contract: each method either answers directly from its arguments and
/// environment, aborts, or issues one sub-invocation through the host and
/// answers with the child's result.
pub enum MethodBehavior {
    /// Answers with the argument bytes unchanged.
    ReturnArgs,
    /// Answers with fixed bytes.
    ReturnConst(Vec<u8>),
    /// Answers with the environment bytes; if `required` and no environment
    /// was supplied, aborts.
    ReturnEnv { required: bool },
    /// Aborts with a message.
    Abort(Vec<char>),
    /// Sub-invokes `method` on `uri`, forwarding the argument bytes, and
    /// answers with the child's result.
    Subinvoke { uri: Uri, method: Vec<char> },
    /// Answers with the registered implementations of `interface`, each as
    /// its canonical form in UTF-8 followed by one line feed.
    ReturnImplementations { interface: Uri },
}

/// Mathematical value of a [`WrapperMethod`].
#[verifier::ext_equal]
pub struct MethodV {
    pub name: Seq<char>,
    pub behavior: BehaviorV,
}

/// A named method of a wrapper.
pub struct WrapperMethod {
    pub name: Vec<char>,
    pub behavior: MethodBehavior,
}

/// Mathematical value of a [`Wrapper`].
#[verifier::ext_equal]
pub struct WrapperV {
    pub methods: Seq<MethodV>,
    pub module: Option<Seq<u8>>,
}

/// The unit of dispatch: a set of named methods, and optionally the bytes of
/// a WebAssembly module.
///
/// The execution engine for module bytes lives outside this crate; a wrapper
/// made of bare module bytes answers no method itself.
pub struct Wrapper {
    pub methods: Vec<WrapperMethod>,
    pub module: Option<Vec<u8>>,
}

impl View for MethodBehavior {
    type V = BehaviorV;

    open spec fn view(&self) -> BehaviorV {
        match self {
            MethodBehavior::ReturnArgs => BehaviorV::ReturnArgs,
            MethodBehavior::ReturnConst(b) => BehaviorV::ReturnConst(b@),
            MethodBehavior::ReturnEnv { required } => BehaviorV::ReturnEnv { required: *required },
            MethodBehavior::Abort(m) => BehaviorV::Abort(m@),
            MethodBehavior::Subinvoke { uri, method } => BehaviorV::Subinvoke {
                uri: uri@,
                method: method@,
            },
            MethodBehavior::ReturnImplementations { interface } => {
                BehaviorV::ReturnImplementations { interface: interface@ }
            },
        }
    }
}

impl View for WrapperMethod {
    type V = MethodV;

    open spec fn view(&self) -> MethodV {
        MethodV { name: self.name@, behavior: self.behavior@ }
    }
}

impl View for Wrapper {
    type V = WrapperV;

    open spec fn view(&self) -> WrapperV {
        WrapperV {
            methods: Seq::new(self.methods@.len(), |i: int| self.methods@[i]@),
            module: match self.module {
                Some(m) => Some(m@),
                None => None,
            },
        }
    }
}

impl Clone for MethodBehavior {
    /// The copy has the same view.
    fn clone(&self) -> (r: Self)
        ensures
            r@ == self@,
    {
        match self {
            MethodBehavior::ReturnArgs => MethodBehavior::ReturnArgs,
            MethodBehavior::ReturnConst(b) => MethodBehavior::ReturnConst(clone_bytes(b)),
            MethodBehavior::ReturnEnv { required } => MethodBehavior::ReturnEnv {
                required: *required,
            },
            MethodBehavior::Abort(m) => MethodBehavior::Abort(clone_chars(m)),
            MethodBehavior::Subinvoke { uri, method } => MethodBehavior::Subinvoke {
                uri: uri.clone(),
                method: clone_chars(method),
            },
            MethodBehavior::ReturnImplementations { interface } => {
                MethodBehavior::ReturnImplementations { interface: interface.clone() }
            },
        }
    }
}

impl Clone for WrapperMethod {
    /// The copy has the same view.
    fn clone(&self) -> (r: Self)
        ensures
            r@ == self@,
    {
        WrapperMethod { name: clone_chars(&self.name), behavior: self.behavior.clone() }
    }
}

impl Clone for Wrapper {
    /// The copy has the same view.
    fn clone(&self) -> (r: Self)
        ensures
            r@ == self@,
    {
        let mut methods: Vec<WrapperMethod> = Vec::new();
        let mut i: usize = 0;
        while i < self.methods.len()
            invariant
                i <= self.methods@.len(),
                methods@.len() == i,
                forall|j: int| 0 <= j < i ==> methods@[j]@ == #[trigger] self.methods@[j]@,
            decreases self.methods.len() - i,
        {
            methods.push(self.methods[i].clone());
            i += 1;
        }
        let module = match &self.module {
            Some(m) => Some(clone_bytes(m)),
            None => None,
        };
        let r = Wrapper { methods, module };
        proof {
            assert(r@.methods =~= self@.methods);
            assert(r@ =~= self@);
        }
        r
    }
}

/// The behavior of the first method named `name`, if any.
pub open spec fn find_method(methods: Seq<MethodV>, name: Seq<char>) -> Option<BehaviorV>
    decreases methods.len(),
{
    if methods.len() == 0 {
        None
    } else if methods[0].name == name {
        Some(methods[0].behavior)
    } else {
        find_method(methods.drop_first(), name)
    }
}

impl Wrapper {
    /// A wrapper with no methods and no module bytes.
    pub fn new() -> (r: Wrapper)
        ensures
            r@.methods.len() == 0,
            r@.module is None,
    {
        Wrapper { methods: Vec::new(), module: None }
    }

    /// A wrapper holding only module bytes.
    pub fn from_module(module: Vec<u8>) -> (r: Wrapper)
        ensures
            r@.methods.len() == 0,
            r@.module == Some(module@),
    {
        Wrapper { methods: Vec::new(), module: Some(module) }
    }

    /// Adds a method.
    pub fn add_method(&mut self, name: Vec<char>, behavior: MethodBehavior)
        ensures
            final(self)@.methods == old(self)@.methods.push(
                MethodV { name: name@, behavior: behavior@ },
            ),
            final(self)@.module == old(self)@.module,
    {
        self.methods.push(WrapperMethod { name, behavior });
        proof {
            assert(self@.methods =~= old(self)@.methods.push(
                MethodV { name: name@, behavior: behavior@ },
            ));
        }
    }

    /// Looks up the behavior of the method named `name`.
    pub fn get_method(&self, name: &Vec<char>) -> (r: Option<&MethodBehavior>)
        ensures
            match r {
                Some(b) => find_method(self@.methods, name@) == Some(b@),
                None => find_method(self@.methods, name@) is None,
            },
    {
        proof {
            assert(self@.methods.skip(0) =~= self@.methods);
        }
        let mut i: usize = 0;
        while i < self.methods.len()
            invariant
                i <= self.methods@.len(),
                forall|j: int| 0 <= j < i ==> #[trigger] self@.methods[j].name != name@,
                find_method(self@.methods, name@) == find_method(
                    self@.methods.skip(i as int),
                    name@,
                ),
            decreases self.methods.len() - i,
        {
            proof {
                assert(self@.methods.skip(i as int)[0] == self@.methods[i as int]);
            }
            if chars_eq(&self.methods[i].name, name) {
                return Some(&self.methods[i].behavior);
            }
            i += 1;
            proof {
                assert(self@.methods.skip(i as int) =~= self@.methods.skip(i - 1).drop_first());
            }
        }
        proof {
            assert(self@.methods.skip(i as int).len() == 0);
        }
        None
    }
}

/// The message a wrapper aborts with when a required environment is missing.
pub open spec fn env_required_message() -> Seq<char> {
    "Environment is not set, and it is required"@
}

/// What a method behavior answers from the argument and environment bytes
/// alone; the sub-invoking and implementations-listing behaviors are
/// related at the invoker, which holds what they need.
pub open spec fn behavior_result(b: BehaviorV, args: Seq<u8>, env: Option<Seq<u8>>) -> Result<
    Seq<u8>,
    ErrV,
> {
    match b {
        BehaviorV::ReturnArgs => Ok(args),
        BehaviorV::ReturnConst(bytes) => Ok(bytes),
        BehaviorV::ReturnEnv { required } => match env {
            Some(e) => Ok(e),
            None => if required {
                Err(ErrV::Wrapper(env_required_message()))
            } else {
                Ok(Seq::empty())
            },
        },
        BehaviorV::Abort(m) => Err(ErrV::Wrapper(m)),
        BehaviorV::Subinvoke { uri, method } => Ok(Seq::empty()),
        BehaviorV::ReturnImplementations { interface } => Ok(Seq::empty()),
    }
}

} // verus!

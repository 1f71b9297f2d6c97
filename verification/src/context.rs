use vstd::prelude::*;
use crate::uri::{Uri, UriV, clone_chars};
use crate::error::{WrapError, ErrV};
use crate::wrapper::{Wrapper, WrapperV};
use crate::package::{WrapPackageEntry, PackageV};

verus! {

/// Mathematical value of a [`UriPackageOrWrapper`].
#[verifier::ext_equal]
pub enum UpowV {
    Uri(UriV),
    Package(UriV, PackageV),
    Wrapper(UriV, WrapperV),
}

/// What resolving a URI yields: another URI to resolve in turn, a package at
/// its canonical URI, or a ready wrapper at its canonical URI.
pub enum UriPackageOrWrapper {
    Uri(Uri),
    Package(Uri, WrapPackageEntry),
    Wrapper(Uri, Wrapper),
}

impl View for UriPackageOrWrapper {
    type V = UpowV;

    open spec fn view(&self) -> UpowV {
        match self {
            UriPackageOrWrapper::Uri(u) => UpowV::Uri(u@),
            UriPackageOrWrapper::Package(u, p) => UpowV::Package(u@, p@),
            UriPackageOrWrapper::Wrapper(u, w) => UpowV::Wrapper(u@, w@),
        }
    }
}

impl Clone for UriPackageOrWrapper {
    /// The copy has the same view.
    fn clone(&self) -> (r: Self)
        ensures
            r@ == self@,
    {
        match self {
            UriPackageOrWrapper::Uri(u) => UriPackageOrWrapper::Uri(u.clone()),
            UriPackageOrWrapper::Package(u, p) => UriPackageOrWrapper::Package(
                u.clone(),
                p.clone(),
            ),
            UriPackageOrWrapper::Wrapper(u, w) => UriPackageOrWrapper::Wrapper(
                u.clone(),
                w.clone(),
            ),
        }
    }
}

/// Mathematical value of a resolution result.
pub open spec fn res_view(r: Result<UriPackageOrWrapper, WrapError>) -> Result<UpowV, ErrV> {
    match r {
        Ok(v) => Ok(v@),
        Err(e) => Err(e@),
    }
}

/// Copies a resolution result; the copy has the same view.
pub fn clone_result(r: &Result<UriPackageOrWrapper, WrapError>) -> (c: Result<
    UriPackageOrWrapper,
    WrapError,
>)
    ensures
        res_view(c) == res_view(*r),
{
    match r {
        Ok(v) => Ok(v.clone()),
        Err(e) => Err(e.clone()),
    }
}

/// Mathematical value of a [`UriResolutionStep`].
#[verifier::ext_equal]
pub struct StepV {
    pub source_uri: UriV,
    pub result: Result<UpowV, ErrV>,
    pub description: Option<Seq<char>>,
    pub sub_history: Option<Seq<StepV>>,
}

/// One entry of the resolution history: which URI a resolver was asked for,
/// what it answered, a description of the resolver, and the history of any
/// sub-resolution it ran.
pub struct UriResolutionStep {
    pub source_uri: Uri,
    pub result: Result<UriPackageOrWrapper, WrapError>,
    pub description: Option<Vec<char>>,
    pub sub_history: Option<Vec<UriResolutionStep>>,
}

/// Mathematical value of a step.
pub open spec fn step_view(s: UriResolutionStep) -> StepV
    decreases s,
{
    StepV {
        source_uri: s.source_uri@,
        result: res_view(s.result),
        description: match s.description {
            Some(d) => Some(d@),
            None => None,
        },
        sub_history: match s.sub_history {
            Some(v) => Some(steps_view(v@)),
            None => None,
        },
    }
}

/// Mathematical value of a list of steps.
pub open spec fn steps_view(v: Seq<UriResolutionStep>) -> Seq<StepV>
    decreases v,
{
    if v.len() == 0 {
        Seq::empty()
    } else {
        steps_view(v.drop_last()).push(step_view(v.last()))
    }
}

/// Appending a step to a list appends its value to the list's value.
pub broadcast proof fn lemma_steps_view_push(v: Seq<UriResolutionStep>, s: UriResolutionStep)
    ensures
        #[trigger] steps_view(v.push(s)) == steps_view(v).push(step_view(s)),
{
    assert(v.push(s).drop_last() =~= v);
    assert(v.push(s).last() == s);
}

/// Mathematical value of a [`UriResolutionContext`].
#[verifier::ext_equal]
pub struct CtxV {
    pub visited: Seq<UriV>,
    pub path: Seq<UriV>,
    pub history: Seq<StepV>,
}

/// The per-resolution ledger: the URIs in flight on this branch (for cycle
/// detection), the URIs actually traversed (for cache seeding), and the
/// history of resolution steps.
pub struct UriResolutionContext {
    pub visited: Vec<Uri>,
    pub resolution_path: Vec<Uri>,
    pub history: Vec<UriResolutionStep>,
}

/// The values of a list of URIs.
pub open spec fn uris_view(v: Seq<Uri>) -> Seq<UriV> {
    Seq::new(v.len(), |i: int| v[i]@)
}

impl View for UriResolutionContext {
    type V = CtxV;

    open spec fn view(&self) -> CtxV {
        CtxV {
            visited: uris_view(self.visited@),
            path: uris_view(self.resolution_path@),
            history: steps_view(self.history@),
        }
    }
}

/// Copies a list of URIs; the copy has the same values.
pub fn clone_uris(v: &Vec<Uri>) -> (r: Vec<Uri>)
    ensures
        uris_view(r@) == uris_view(v@),
{
    let mut r: Vec<Uri> = Vec::new();
    let mut i: usize = 0;
    while i < v.len()
        invariant
            i <= v.len(),
            r@.len() == i,
            forall|j: int| 0 <= j < i ==> r@[j]@ == #[trigger] v@[j]@,
        decreases v.len() - i,
    {
        r.push(v[i].clone());
        i += 1;
    }
    proof {
        assert(uris_view(r@) =~= uris_view(v@));
    }
    r
}

impl UriResolutionContext {
    /// A fresh context: nothing visited, nothing traversed, no history.
    pub fn new() -> (r: UriResolutionContext)
        ensures
            r@.visited.len() == 0,
            r@.path.len() == 0,
            r@.history.len() == 0,
    {
        let r = UriResolutionContext {
            visited: Vec::new(),
            resolution_path: Vec::new(),
            history: Vec::new(),
        };
        proof {
            assert(r@.visited =~= Seq::<UriV>::empty());
            assert(r@.path =~= Seq::<UriV>::empty());
        }
        r
    }

    /// Whether `u` is in flight on this branch.
    pub fn is_visited(&self, u: &Uri) -> (r: bool)
        ensures
            r == self@.visited.contains(u@),
    {
        let mut i: usize = 0;
        while i < self.visited.len()
            invariant
                i <= self.visited@.len(),
                forall|j: int| 0 <= j < i ==> uris_view(self.visited@)[j] != u@,
            decreases self.visited.len() - i,
        {
            if self.visited[i].eq_uri(u) {
                proof {
                    assert(self@.visited[i as int] == u@);
                }
                return true;
            }
            i += 1;
        }
        proof {
            if self@.visited.contains(u@) {
                let j = choose|j: int| 0 <= j < self@.visited.len() && self@.visited[j] == u@;
                assert(uris_view(self.visited@)[j] != u@);
            }
        }
        false
    }

    /// Marks `u` as in flight and traversed.
    pub fn visit(&mut self, u: &Uri)
        ensures
            final(self)@.visited == old(self)@.visited.push(u@),
            final(self)@.path == old(self)@.path.push(u@),
            final(self)@.history == old(self)@.history,
    {
        self.visited.push(u.clone());
        self.resolution_path.push(u.clone());
        proof {
            assert(self@.visited =~= old(self)@.visited.push(u@));
            assert(self@.path =~= old(self)@.path.push(u@));
        }
    }

    /// Forgets in-flight marks back down to the first `n`.
    pub fn truncate_visited(&mut self, n: usize)
        requires
            n <= old(self)@.visited.len(),
        ensures
            final(self)@.visited == old(self)@.visited.subrange(0, n as int),
            final(self)@.path == old(self)@.path,
            final(self)@.history == old(self)@.history,
    {
        self.visited.truncate(n);
        proof {
            assert(self@.visited =~= old(self)@.visited.subrange(0, n as int));
        }
    }

    /// Appends a step to the history.
    pub fn track_step(&mut self, step: UriResolutionStep)
        ensures
            final(self)@.visited == old(self)@.visited,
            final(self)@.path == old(self)@.path,
            final(self)@.history == old(self)@.history.push(step_view(step)),
    {
        proof {
            lemma_steps_view_push(self.history@, step);
        }
        self.history.push(step);
    }

    /// The history recorded so far.
    pub fn get_history(&self) -> (r: &Vec<UriResolutionStep>)
        ensures
            steps_view(r@) == self@.history,
    {
        &self.history
    }

    /// The URIs traversed so far.
    pub fn get_resolution_path(&self) -> (r: &Vec<Uri>)
        ensures
            uris_view(r@) == self@.path,
    {
        &self.resolution_path
    }

    /// A sub-context for a nested resolution: it inherits the in-flight set
    /// and the traversed path, and starts a history of its own.
    pub fn create_sub_history_context(&self) -> (r: UriResolutionContext)
        ensures
            r@.visited == self@.visited,
            r@.path == self@.path,
            r@.history.len() == 0,
    {
        UriResolutionContext {
            visited: clone_uris(&self.visited),
            resolution_path: clone_uris(&self.resolution_path),
            history: Vec::new(),
        }
    }
}

} // verus!

use vstd::prelude::*;
use crate::error::WrapError;

verus! {

/// Mathematical value of a [`Uri`]: its authority and its path, as character
/// sequences.
#[verifier::ext_equal]
pub struct UriV {
    pub authority: Seq<char>,
    pub path: Seq<char>,
}

/// A character allowed in a URI authority: ASCII letters, digits, `_` and `-`.
pub open spec fn is_authority_char(c: char) -> bool {
    ||| 97 <= c as u32 && c as u32 <= 122
    ||| 65 <= c as u32 && c as u32 <= 90
    ||| 48 <= c as u32 && c as u32 <= 57
    ||| c == '_'
    ||| c == '-'
}

/// A well-formed URI has a non-empty authority of authority characters and a
/// non-empty path.
pub open spec fn uri_wf(u: UriV) -> bool {
    &&& u.authority.len() > 0
    &&& u.path.len() > 0
    &&& forall|i: int| 0 <= i < u.authority.len() ==> is_authority_char(#[trigger] u.authority[i])
}

/// The characters of the optional `wrap://` scheme prefix.
pub open spec fn wrap_scheme_prefix() -> Seq<char> {
    seq!['w', 'r', 'a', 'p', ':', '/', '/']
}

/// A URI string may carry the `wrap://` prefix; its meaning is the same
/// without it.
pub open spec fn strip_wrap_prefix(s: Seq<char>) -> Seq<char> {
    if s.len() >= 7 && s.subrange(0, 7) == wrap_scheme_prefix() {
        s.subrange(7, s.len() as int)
    } else {
        s
    }
}

/// Position of the first `/` in `s` at or after `i`, or `s.len()` if there is
/// none.
pub open spec fn first_slash_from(s: Seq<char>, i: int) -> int
    decreases s.len() - i,
{
    if i < 0 || i >= s.len() {
        s.len() as int
    } else if s[i] == '/' {
        i
    } else {
        first_slash_from(s, i + 1)
    }
}

/// What parsing a URI string yields: the text after the optional `wrap://`
/// prefix is split at its first `/` into authority and path, and the result
/// is accepted exactly when it is well-formed.
pub open spec fn parse_uri(s: Seq<char>) -> Option<UriV> {
    let t = strip_wrap_prefix(s);
    let k = first_slash_from(t, 0);
    if k >= t.len() {
        None
    } else {
        let u = UriV { authority: t.subrange(0, k), path: t.subrange(k + 1, t.len() as int) };
        if uri_wf(u) {
            Some(u)
        } else {
            None
        }
    }
}

/// The canonical string form of a URI value: `wrap://<authority>/<path>`.
pub open spec fn uri_canonical(u: UriV) -> Seq<char> {
    "wrap://"@ + u.authority + "/"@ + u.path
}

/// Canonical identifier of a wrapper or package: an authority and a path,
/// with canonical string form `wrap://<authority>/<path>`.
#[derive(Debug)]
pub struct Uri {
    pub authority: Vec<char>,
    pub path: Vec<char>,
}

impl View for Uri {
    type V = UriV;

    open spec fn view(&self) -> UriV {
        UriV { authority: self.authority@, path: self.path@ }
    }
}

/// Copies a character vector; the copy has the same view.
pub fn clone_chars(v: &Vec<char>) -> (r: Vec<char>)
    ensures
        r@ == v@,
{
    let mut r: Vec<char> = Vec::new();
    let mut i: usize = 0;
    while i < v.len()
        invariant
            i <= v.len(),
            r@ == v@.subrange(0, i as int),
        decreases v.len() - i,
    {
        r.push(v[i]);
        i += 1;
        proof {
            assert(r@ =~= v@.subrange(0, i as int));
        }
    }
    proof {
        assert(r@ =~= v@);
    }
    r
}

/// Copies a byte vector; the copy has the same view.
pub fn clone_bytes(v: &Vec<u8>) -> (r: Vec<u8>)
    ensures
        r@ == v@,
{
    let mut r: Vec<u8> = Vec::new();
    let mut i: usize = 0;
    while i < v.len()
        invariant
            i <= v.len(),
            r@ == v@.subrange(0, i as int),
        decreases v.len() - i,
    {
        r.push(v[i]);
        i += 1;
        proof {
            assert(r@ =~= v@.subrange(0, i as int));
        }
    }
    proof {
        assert(r@ =~= v@);
    }
    r
}

/// Compares two character vectors element by element.
pub fn chars_eq(a: &Vec<char>, b: &Vec<char>) -> (r: bool)
    ensures
        r == (a@ == b@),
{
    if a.len() != b.len() {
        proof {
            assert(a@ != b@) by {
                assert(a@.len() != b@.len());
            }
        }
        return false;
    }
    let mut i: usize = 0;
    while i < a.len()
        invariant
            i <= a.len(),
            a@.len() == b@.len(),
            forall|j: int| 0 <= j < i ==> a@[j] == b@[j],
        decreases a.len() - i,
    {
        if a[i] != b[i] {
            return false;
        }
        i += 1;
    }
    proof {
        assert(a@ =~= b@);
    }
    true
}

/// The characters of `s`, in order.
pub fn str_chars(s: &str) -> (v: Vec<char>)
    ensures
        v@ == s@,
{
    let n = s.unicode_len();
    let mut v: Vec<char> = Vec::new();
    let mut i: usize = 0;
    while i < n
        invariant
            i <= n,
            n == s@.len(),
            v@ == s@.subrange(0, i as int),
        decreases n - i,
    {
        v.push(s.get_char(i));
        i += 1;
        proof {
            assert(v@ =~= s@.subrange(0, i as int));
        }
    }
    proof {
        assert(v@ =~= s@);
    }
    v
}

/// Whether `c` may appear in an authority.
fn authority_char(c: char) -> (r: bool)
    ensures
        r == is_authority_char(c),
{
    let n = c as u32;
    (97 <= n && n <= 122) || (65 <= n && n <= 90) || (48 <= n && n <= 57) || c == '_' || c == '-'
}

impl Uri {
    /// The authority part.
    pub fn authority(&self) -> (r: &Vec<char>)
        ensures
            r@ == self@.authority,
    {
        &self.authority
    }

    /// The path part.
    pub fn path(&self) -> (r: &Vec<char>)
        ensures
            r@ == self@.path,
    {
        &self.path
    }

    /// Builds a URI from its two well-formed parts.
    pub fn from_parts(authority: Vec<char>, path: Vec<char>) -> (r: Uri)
        requires
            uri_wf(UriV { authority: authority@, path: path@ }),
        ensures
            r@ == (UriV { authority: authority@, path: path@ }),
    {
        Uri { authority, path }
    }

    /// Structural equality of two URIs.
    pub fn eq_uri(&self, other: &Uri) -> (r: bool)
        ensures
            r == (self@ == other@),
    {
        let r = chars_eq(&self.authority, &other.authority) && chars_eq(&self.path, &other.path);
        proof {
            if self@.authority == other@.authority && self@.path == other@.path {
                assert(self@ =~= other@);
            }
        }
        r
    }

    /// The canonical string form `wrap://<authority>/<path>`.
    pub fn to_uri_string(&self) -> (r: String)
        ensures
            r@ == uri_canonical(self@),
    {
        let mut s: String = "wrap://".to_owned();
        let ghost prefix = "wrap://"@;
        let mut i: usize = 0;
        while i < self.authority.len()
            invariant
                i <= self.authority@.len(),
                s@ == prefix + self@.authority.take(i as int),
            decreases self.authority@.len() - i,
        {
            push_char(&mut s, self.authority[i]);
            i += 1;
            proof {
                assert(s@ =~= prefix + self@.authority.take(i as int));
            }
        }
        proof {
            assert(s@ =~= prefix + self@.authority);
        }
        push_char(&mut s, '/');
        let ghost mid = prefix + self@.authority + "/"@;
        proof {
            reveal_strlit("/");
            assert(s@ =~= mid);
        }
        let mut i2: usize = 0;
        while i2 < self.path.len()
            invariant
                i2 <= self.path@.len(),
                mid == prefix + self@.authority + "/"@,
                s@ == mid + self@.path.take(i2 as int),
            decreases self.path@.len() - i2,
        {
            push_char(&mut s, self.path[i2]);
            i2 += 1;
            proof {
                assert(s@ =~= mid + self@.path.take(i2 as int));
            }
        }
        proof {
            assert(s@ =~= mid + self@.path);
            assert(mid + self@.path =~= prefix + self@.authority + "/"@ + self@.path);
        }
        s
    }

    /// Parses a URI string: an optional `wrap://` prefix, then
    /// `<authority>/<path>` with a non-empty authority of letters, digits,
    /// `_` and `-`, and a non-empty path.
    pub fn parse(s: &str) -> (r: Result<Uri, WrapError>)
        ensures
            match r {
                Ok(u) => parse_uri(s@) == Some(u@) && uri_wf(u@),
                Err(e) => parse_uri(s@) is None && e is UriParseError,
            },
    {
        let chars = str_chars(s);
        Self::parse_chars(chars, Ghost(s@))
    }

    /// Parses the characters of a URI string; `full` is the string they came
    /// from.
    fn parse_chars(chars: Vec<char>, full: Ghost<Seq<char>>) -> (r: Result<Uri, WrapError>)
        requires
            chars@ == full@,
        ensures
            match r {
                Ok(u) => parse_uri(full@) == Some(u@) && uri_wf(u@),
                Err(e) => parse_uri(full@) is None && e is UriParseError,
            },
    {
        let mut start: usize = 0;
        if chars.len() >= 7 && chars[0] == 'w' && chars[1] == 'r' && chars[2] == 'a' && chars[3]
            == 'p' && chars[4] == ':' && chars[5] == '/' && chars[6] == '/' {
            start = 7;
            proof {
                assert(chars@.subrange(0, 7) =~= wrap_scheme_prefix());
            }
        } else {
            proof {
                if chars@.len() >= 7 && chars@.subrange(0, 7) == wrap_scheme_prefix() {
                    assert(chars@[0] == chars@.subrange(0, 7)[0]);
                    assert(chars@[1] == chars@.subrange(0, 7)[1]);
                    assert(chars@[2] == chars@.subrange(0, 7)[2]);
                    assert(chars@[3] == chars@.subrange(0, 7)[3]);
                    assert(chars@[4] == chars@.subrange(0, 7)[4]);
                    assert(chars@[5] == chars@.subrange(0, 7)[5]);
                    assert(chars@[6] == chars@.subrange(0, 7)[6]);
                    assert(false);
                }
            }
        }
        let ghost t = strip_wrap_prefix(full@);
        proof {
            assert(chars@.subrange(start as int, chars@.len() as int) =~= t);
        }
        // find the first slash at or after `start`
        let mut k: usize = start;
        while k < chars.len() && chars[k] != '/'
            invariant
                start <= k <= chars@.len(),
                chars@ == full@,
                t == strip_wrap_prefix(full@),
                chars@.subrange(start as int, chars@.len() as int) == t,
                first_slash_from(t, 0) == first_slash_from(t, k - start),
            decreases chars.len() - k,
        {
            proof {
                assert(t[k - start] == chars@[k as int]);
            }
            k += 1;
        }
        let ghost fs = first_slash_from(t, 0);
        proof {
            if k < chars@.len() {
                assert(t[k - start] == chars@[k as int]);
                assert(fs == k - start);
            } else {
                assert(fs == t.len());
            }
        }
        if k >= chars.len() {
            return Err(WrapError::UriParseError);
        }
        // collect the authority, checking its characters
        let mut authority: Vec<char> = Vec::new();
        let mut i: usize = start;
        while i < k
            invariant
                start <= i <= k < chars@.len(),
                chars@ == full@,
                t == strip_wrap_prefix(full@),
                chars@.subrange(start as int, chars@.len() as int) == t,
                fs == first_slash_from(t, 0),
                fs == k - start,
                authority@ == t.subrange(0, i - start),
                forall|j: int|
                    0 <= j < authority@.len() ==> is_authority_char(#[trigger] authority@[j]),
            decreases k - i,
        {
            let c = chars[i];
            proof {
                assert(t[i - start] == chars@[i as int]);
            }
            if !authority_char(c) {
                proof {
                    assert(parse_uri(full@) is None) by {
                        let u = UriV {
                            authority: t.subrange(0, fs),
                            path: t.subrange(fs + 1, t.len() as int),
                        };
                        assert(u.authority[i - start] == t[i - start]);
                        assert(!uri_wf(u));
                    };
                }
                return Err(WrapError::UriParseError);
            }
            authority.push(c);
            i += 1;
            proof {
                assert(authority@ =~= t.subrange(0, i - start));
            }
        }
        // collect the path
        let mut path: Vec<char> = Vec::new();
        let mut i2: usize = k + 1;
        while i2 < chars.len()
            invariant
                k + 1 <= i2 <= chars@.len(),
                start <= k < chars@.len(),
                chars@ == full@,
                t == strip_wrap_prefix(full@),
                chars@.subrange(start as int, chars@.len() as int) == t,
                fs == k - start,
                path@ == t.subrange(fs + 1, i2 - start),
            decreases chars.len() - i2,
        {
            proof {
                assert(t[i2 - start] == chars@[i2 as int]);
            }
            path.push(chars[i2]);
            i2 += 1;
            proof {
                assert(path@ =~= t.subrange(fs + 1, i2 - start));
            }
        }
        proof {
            assert(t.len() == chars@.len() - start);
            assert(authority@ =~= t.subrange(0, fs));
            assert(path@ =~= t.subrange(fs + 1, t.len() as int));
        }
        if authority.len() == 0 || path.len() == 0 {
            return Err(WrapError::UriParseError);
        }
        Ok(Uri { authority, path })
    }
}

impl Clone for Uri {
    /// The copy has the same view.
    fn clone(&self) -> (r: Self)
        ensures
            r@ == self@,
    {
        let r = Uri { authority: clone_chars(&self.authority), path: clone_chars(&self.path) };
        proof {
            assert(r@ =~= self@);
        }
        r
    }
}

impl PartialEq for Uri {
    fn eq(&self, other: &Self) -> (r: bool) {
        self.eq_uri(other)
    }
}

impl vstd::std_specs::cmp::PartialEqSpecImpl for Uri {
    open spec fn obeys_eq_spec() -> bool {
        true
    }

    open spec fn eq_spec(&self, other: &Self) -> bool {
        self@ == other@
    }
}

/// A single redirection: resolving `from` yields `to` to be resolved in turn.
pub struct UriRedirect {
    pub from: Uri,
    pub to: Uri,
}

impl UriRedirect {
    /// Builds a redirect from its two ends.
    pub fn new(from: Uri, to: Uri) -> (r: UriRedirect)
        ensures
            r.from@ == from@,
            r.to@ == to@,
    {
        UriRedirect { from, to }
    }
}

impl Clone for UriRedirect {
    /// The copy has the same view.
    fn clone(&self) -> (r: Self)
        ensures
            r.from@ == self.from@,
            r.to@ == self.to@,
    {
        UriRedirect { from: self.from.clone(), to: self.to.clone() }
    }
}

/// Relies on std's String::push: it appends the given character to the end
/// of the string.
#[verifier::external_body]
fn push_char(s: &mut String, c: char)
    ensures
        final(s)@ == old(s)@.push(c),
{
    s.push(c);
}

/// Helper for the first-slash position: below the first slash, the position
/// is unchanged.
proof fn lemma_first_slash_at(t: Seq<char>, k: int, i: int)
    requires
        0 <= i <= k < t.len(),
        t[k] == '/',
        forall|j: int| 0 <= j < k ==> t[j] != '/',
    ensures
        first_slash_from(t, i) == k,
    decreases k - i,
{
    if i < k {
        lemma_first_slash_at(t, k, i + 1);
    }
}

/// Printing a well-formed URI and parsing the text back yields the same
/// URI: the canonical form round-trips.
pub proof fn lemma_uri_round_trip(u: UriV)
    requires
        uri_wf(u),
    ensures
        parse_uri(uri_canonical(u)) == Some(u),
{
    reveal_strlit("wrap://");
    reveal_strlit("/");
    let s = "wrap://"@ + u.authority + "/"@ + u.path;
    let t = u.authority + "/"@ + u.path;
    assert(s.subrange(0, 7) =~= wrap_scheme_prefix());
    assert(strip_wrap_prefix(s) =~= t);
    let k = u.authority.len() as int;
    assert(t[k] == '/');
    assert forall|j: int| 0 <= j < k implies t[j] != '/' by {
        assert(t[j] == u.authority[j]);
        assert(is_authority_char(u.authority[j]));
    }
    lemma_first_slash_at(t, k, 0);
    assert(t.subrange(0, k) =~= u.authority);
    assert(t.subrange(k + 1, t.len() as int) =~= u.path);
    assert(parse_uri(s) == Some(UriV { authority: t.subrange(0, k), path: t.subrange(k + 1, t.len() as int) }));
    assert(UriV { authority: t.subrange(0, k), path: t.subrange(k + 1, t.len() as int) } =~= u);
}

} // verus!

//! Where a node dials: the host and port inside a hub endpoint.
//!
//! The node only ever dials out. An endpoint is either a bare `host:port` or
//! a `tcp://host:port` URL; any other scheme is a configuration error, so the
//! node fails at startup instead of retrying an address it can never reach.
use vstd::prelude::*;
use vstd::string::*;

use crate::node::config::{ConfigError, HubEndpoint};
use crate::text::{chars_of, same_text};

verus! {

/// A `://` separator starts at `i`.
pub open spec fn is_separator_at(s: Seq<char>, i: int) -> bool {
    0 <= i && i + 3 <= s.len() && s[i] == ':' && s[i + 1] == '/' && s[i + 2] == '/'
}

/// Where the first `://` at or after `i` starts, or -1 if there is none.
pub open spec fn find_separator(s: Seq<char>, i: nat) -> int
    decreases s.len() - i,
{
    if i + 3 > s.len() {
        -1
    } else if is_separator_at(s, i as int) {
        i as int
    } else {
        find_separator(s, i + 1)
    }
}

/// The text of the one scheme a node dials.
pub open spec fn tcp_scheme() -> Seq<char> {
    seq!['t', 'c', 'p']
}

/// What dialing `s` means: the `host:port` to dial (`Ok`), or the scheme
/// that cannot be dialed (`Err`). The text is split at its first `://`; with
/// none, all of it is the target.
pub open spec fn dial_target_of(s: Seq<char>) -> Result<Seq<char>, Seq<char>> {
    let p = find_separator(s, 0);
    if p < 0 {
        Ok(s)
    } else if s.take(p) == tcp_scheme() {
        Ok(s.skip(p + 3))
    } else {
        Err(s.take(p))
    }
}

/// A separator found at `i` is at or after `from`, and none lies between.
proof fn lemma_find_separator(s: Seq<char>, from: nat)
    ensures
        find_separator(s, from) == -1 || (from <= find_separator(s, from) && is_separator_at(
            s,
            find_separator(s, from),
        )),
        forall|j: int| from <= j < find_separator(s, from) ==> !is_separator_at(s, j),
        find_separator(s, from) == -1 ==> forall|j: int| from <= j ==> !is_separator_at(s, j),
    decreases s.len() - from,
{
    if from + 3 <= s.len() && !is_separator_at(s, from as int) {
        lemma_find_separator(s, from + 1);
    }
}

/// Where the first `://` in `cs` starts.
fn first_separator(cs: &Vec<char>) -> (r: Option<usize>)
    ensures
        match r {
            Some(i) => find_separator(cs@, 0) == i && i + 3 <= cs@.len(),
            None => find_separator(cs@, 0) == -1,
        },
{
    let mut i: usize = 0;
    while i < cs.len()
        invariant
            i <= cs@.len(),
            find_separator(cs@, 0) == find_separator(cs@, i as nat),
        decreases cs@.len() - i,
    {
        if cs.len() - i < 3 {
            return None;
        }
        if cs[i] == ':' && cs[i + 1] == '/' && cs[i + 2] == '/' {
            return Some(i);
        }
        i = i + 1;
    }
    None
}

impl HubEndpoint {
    /// The `host:port` this endpoint dials.
    ///
    /// Accepts `tcp://host:port` or a bare `host:port`. Any other scheme is
    /// [`ConfigError::UnsupportedScheme`].
    pub fn dial_target(&self) -> (r: Result<&str, ConfigError>)
        ensures
            match r {
                Ok(t) => dial_target_of(self@) == Ok::<Seq<char>, Seq<char>>(t@),
                Err(ConfigError::UnsupportedScheme(scheme)) => dial_target_of(self@) == Err::<
                    Seq<char>,
                    Seq<char>,
                >(scheme@),
                Err(ConfigError::MissingHub) => false,
            },
    {
        let text = self.0.as_str();
        let cs = chars_of(text);
        let n = cs.len();
        let i = match first_separator(&cs) {
            None => {
                return Ok(text);
            },
            Some(i) => i,
        };
        proof {
            lemma_find_separator(self@, 0);
        }
        let scheme = text.substring_char(0, i);
        let rest = text.substring_char(i + 3, n);
        proof {
            reveal_strlit("tcp");
            assert("tcp"@ =~= tcp_scheme());
            assert(scheme@ =~= self@.take(i as int));
            assert(rest@ =~= self@.skip(i + 3));
        }
        if same_text(scheme, "tcp") {
            Ok(rest)
        } else {
            Err(ConfigError::UnsupportedScheme(scheme.to_owned()))
        }
    }
}

/// A `tcp://` URL dials exactly the text after the scheme, and that text on
/// its own dials the same target — provided it holds no `://` itself.
pub proof fn lemma_tcp_url_and_bare_target_agree(target: Seq<char>)
    requires
        forall|j: int| !is_separator_at(target, j),
    ensures
        dial_target_of(seq!['t', 'c', 'p', ':', '/', '/'] + target) == Ok::<Seq<char>, Seq<char>>(
            target,
        ),
        dial_target_of(target) == Ok::<Seq<char>, Seq<char>>(target),
{
    lemma_find_separator(target, 0);
    let url = seq!['t', 'c', 'p', ':', '/', '/'] + target;
    assert(!is_separator_at(url, 0));
    assert(!is_separator_at(url, 1));
    assert(!is_separator_at(url, 2));
    assert(is_separator_at(url, 3));
    assert(find_separator(url, 0) == 3) by {
        assert(find_separator(url, 0) == find_separator(url, 1));
        assert(find_separator(url, 1) == find_separator(url, 2));
        assert(find_separator(url, 2) == find_separator(url, 3));
    }
    assert(url.take(3) =~= tcp_scheme());
    assert(url.skip(6) =~= target);
}

/// Any scheme other than `tcp` is refused, and the refusal names it —
/// provided the scheme holds neither `:` nor `/`.
pub proof fn lemma_other_scheme_is_refused(scheme: Seq<char>, rest: Seq<char>)
    requires
        scheme != tcp_scheme(),
        forall|j: int| 0 <= j < scheme.len() ==> scheme[j] != ':' && scheme[j] != '/',
    ensures
        dial_target_of(scheme + seq![':', '/', '/'] + rest) == Err::<Seq<char>, Seq<char>>(scheme),
{
    let s = scheme + seq![':', '/', '/'] + rest;
    assert forall|j: int| 0 <= j < scheme.len() implies !is_separator_at(s, j) by {
        assert(s[j] == scheme[j]);
    }
    assert(is_separator_at(s, scheme.len() as int));
    lemma_find_separator(s, 0);
    let p = find_separator(s, 0);
    assert(p == scheme.len()) by {
        if p == -1 {
            assert(!is_separator_at(s, scheme.len() as int));
        } else if p < scheme.len() {
        } else if p > scheme.len() {
            assert(!is_separator_at(s, scheme.len() as int));
        }
    }
    assert(s.take(p) =~= scheme);
}

} // verus!

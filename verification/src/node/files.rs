//! A reference connector: read-only file access under a fixed root.
//!
//! The connector proves the connector path end to end — a real capability
//! with a real payload codec the hub never sees inside. It is deliberately
//! read-only and rooted: every request path is resolved against the root and
//! refused if it escapes, so the connector cannot be talked out of its
//! directory.
//!
//! What is decided here: which method a call names, whether a requested path
//! escapes on its face, whether a resolved path stays under the root, and the
//! order of a listing. Touching the file system is left to the caller.
use vstd::prelude::*;
use vstd::multiset::Multiset;
use vstd::string::*;

use crate::protocol::connector::{Connector as ConnectorDescriptor, ConnectorKind};
use crate::protocol::errors::NodeError;
use crate::text::{
    chars_of, lemma_lex_asymmetric, lemma_lex_irreflexive, lemma_lex_total, lemma_lex_transitive,
    lex_lt, same_text, text_lt,
};

verus! {

broadcast use vstd::seq_lib::group_to_multiset_ensures;

/// Ask for a directory listing or a file's contents.
#[derive(Debug, PartialEq, Eq)]
pub struct PathRequest {
    /// Path relative to the connector's root. `.` is the root itself.
    pub path: String,
}

/// One entry in a listing.
#[derive(Debug, PartialEq, Eq)]
pub struct DirEntry {
    pub name: String,
    pub is_dir: bool,
}

/// The answer to `list`.
#[derive(Debug, PartialEq, Eq)]
pub struct Listing {
    pub entries: Vec<DirEntry>,
}

/// The answer to `read`.
#[derive(Debug, PartialEq, Eq)]
pub struct FileContents {
    pub contents: String,
}

/// The methods the files connector answers.
#[derive(Debug, PartialEq, Eq)]
pub enum FilesMethod {
    List,
    Read,
}

/// The refusal of a path that would leave the root.
pub open spec fn escape_message() -> Seq<char> {
    "path escapes the connector root"@
}

/// A `..` segment occupies positions `i` and `i + 1` of `s`.
pub open spec fn parent_segment_at(s: Seq<char>, i: int) -> bool {
    &&& 0 <= i
    &&& i + 2 <= s.len()
    &&& s[i] == '.'
    &&& s[i + 1] == '.'
    &&& (i == 0 || s[i - 1] == '/')
    &&& (i + 2 == s.len() || s[i + 2] == '/')
}

/// A request path leaves the root on its face: it is absolute, or one of its
/// `/`-separated segments is `..`.
pub open spec fn escapes_lexically(s: Seq<char>) -> bool {
    (s.len() > 0 && s[0] == '/') || exists|i: int| #[trigger] parent_segment_at(s, i)
}

/// The byte `/`, which separates path components.
pub open spec fn separator() -> u8 {
    0x2f
}

/// `s[i..j]` is one of the `/`-separated segments of `s`: it starts at the
/// beginning or just after a `/`, ends at the end or just before a `/`, and
/// holds no `/`.
pub open spec fn is_segment(s: Seq<char>, i: int, j: int) -> bool {
    &&& 0 <= i <= j <= s.len()
    &&& (i == 0 || s[i - 1] == '/')
    &&& (j == s.len() || s[j] == '/')
    &&& forall|k: int| i <= k < j ==> s[k] != '/'
}

/// A request path leaves the root on its face exactly when it is absolute
/// or one of its `/`-separated segments is `..`; a relative path whose
/// segments are all ordinary names or `.` (such as `.env` or
/// `docs/.gitignore`) does not.
pub proof fn lemma_escape_means_absolute_or_parent(s: Seq<char>)
    ensures
        escapes_lexically(s) <==> ((s.len() > 0 && s[0] == '/') || exists|i: int, j: int|
            is_segment(s, i, j) && #[trigger] s.subrange(i, j) == ".."@),
{
    reveal_strlit("..");
    if exists|i: int| #[trigger] parent_segment_at(s, i) {
        let i = choose|i: int| #[trigger] parent_segment_at(s, i);
        assert(is_segment(s, i, i + 2));
        assert(s.subrange(i, i + 2) =~= ".."@);
    }
    if exists|i: int, j: int| is_segment(s, i, j) && #[trigger] s.subrange(i, j) == ".."@ {
        let (i, j) = choose|i: int, j: int| is_segment(s, i, j) && #[trigger] s.subrange(i, j)
            == ".."@;
        assert(s.subrange(i, j).len() == 2);
        assert(s.subrange(i, j)[0] == '.' && s.subrange(i, j)[1] == '.');
        assert(parent_segment_at(s, i));
    }
}

/// A canonical path `c` lies at or under the canonical root `r`, both as
/// raw bytes: it is `r`, or continues `r` past a separator.
pub open spec fn lies_under(c: Seq<u8>, r: Seq<u8>) -> bool {
    c == r || (c.len() > r.len() && c.take(r.len() as int) == r && (c[r.len() as int] == separator()
        || (r.len() > 0 && r[r.len() - 1] == separator())))
}

/// Names never decrease along `s`.
pub open spec fn sorted_by_name(s: Seq<DirEntry>) -> bool {
    forall|i: int, j: int| 0 <= i < j < s.len() ==> !lex_lt(#[trigger] s[j].name@, #[trigger] s[i].name@)
}

/// The entries of `s` named `name`, in their order in `s`.
pub open spec fn named(s: Seq<DirEntry>, name: Seq<char>) -> Seq<DirEntry>
    decreases s.len(),
{
    if s.len() == 0 {
        Seq::empty()
    } else if s.last().name@ == name {
        named(s.drop_last(), name).push(s.last())
    } else {
        named(s.drop_last(), name)
    }
}

/// Picking the entries of one name distributes over concatenation.
proof fn lemma_named_concat(a: Seq<DirEntry>, b: Seq<DirEntry>, name: Seq<char>)
    ensures
        named(a + b, name) == named(a, name) + named(b, name),
    decreases b.len(),
{
    if b.len() == 0 {
        assert(a + b =~= a);
        assert(named(b, name) =~= Seq::<DirEntry>::empty());
        assert(named(a, name) + named(b, name) =~= named(a, name));
    } else {
        lemma_named_concat(a, b.drop_last(), name);
        assert((a + b).drop_last() =~= a + b.drop_last());
        assert((a + b).last() == b.last());
        if b.last().name@ == name {
            assert(named(a, name) + named(b.drop_last(), name).push(b.last()) =~= (named(a, name)
                + named(b.drop_last(), name)).push(b.last()));
        }
    }
}

/// A sequence none of whose entries is named `name` has none to pick.
proof fn lemma_named_none(s: Seq<DirEntry>, name: Seq<char>)
    requires
        forall|i: int| 0 <= i < s.len() ==> (#[trigger] s[i]).name@ != name,
    ensures
        named(s, name) == Seq::<DirEntry>::empty(),
    decreases s.len(),
{
    if s.len() > 0 {
        lemma_named_none(s.drop_last(), name);
    }
}

/// Order a listing by name, as a stable sort does: entries of one name keep
/// the order they came in.
pub fn sort_entries(entries: Vec<DirEntry>) -> (r: Vec<DirEntry>)
    ensures
        sorted_by_name(r@),
        r@.to_multiset() == entries@.to_multiset(),
        forall|name: Seq<char>| #[trigger] named(r@, name) == named(entries@, name),
{
    broadcast use vstd::multiset::group_multiset_axioms;

    let ghost all = entries@;
    let total = entries.len();
    assert(all.len() == total);
    let mut input = entries;
    let mut out: Vec<DirEntry> = Vec::new();
    let mut k: usize = 0;
    assert(all.skip(0) =~= all);
    assert(out@.to_multiset().add(input@.to_multiset()) =~= all.to_multiset());
    while input.len() > 0
        invariant
            k <= all.len(),
            all.len() <= usize::MAX,
            input@ == all.skip(k as int),
            sorted_by_name(out@),
            out@.to_multiset().add(input@.to_multiset()) =~= all.to_multiset(),
            forall|name: Seq<char>| #[trigger] named(out@, name) == named(all.take(k as int), name),
        decreases input@.len(),
    {
        let ghost before = input@;
        let x = input.remove(0);
        assert(before =~= seq![x] + input@);
        assert(before.to_multiset() =~= input@.to_multiset().insert(x)) by {
            vstd::seq_lib::lemma_multiset_commutative(seq![x], input@);
            assert(seq![x].to_multiset() =~= Multiset::<DirEntry>::empty().insert(x)) by {
                assert(seq![x] =~= Seq::<DirEntry>::empty().push(x));
            }
        }
        assert(all[k as int] == x);
        assert(all.skip(k + 1) =~= input@);
        let mut p: usize = 0;
        while p < out.len()
            invariant
                p <= out@.len(),
                forall|i: int| 0 <= i < p ==> !lex_lt(x.name@, #[trigger] out@[i].name@),
            ensures
                p <= out@.len(),
                forall|i: int| 0 <= i < p ==> !lex_lt(x.name@, #[trigger] out@[i].name@),
                p == out@.len() || lex_lt(x.name@, out@[p as int].name@),
            decreases out@.len() - p,
        {
            if text_lt(x.name.as_str(), out[p].name.as_str()) {
                break;
            }
            p = p + 1;
        }
        let ghost prior = out@;
        proof {
            assert forall|j: int| p <= j < prior.len() implies lex_lt(x.name@, #[trigger] prior[j].name@) by {
                if j > p {
                    assert(!lex_lt(prior[j].name@, prior[p as int].name@));
                    if prior[j].name@ != prior[p as int].name@ {
                        lemma_lex_total(prior[j].name@, prior[p as int].name@);
                        lemma_lex_transitive(x.name@, prior[p as int].name@, prior[j].name@);
                    }
                }
            }
        }
        out.insert(p, x);
        proof {
            assert forall|i: int, j: int| 0 <= i < j < out@.len() implies !lex_lt(
                #[trigger] out@[j].name@,
                #[trigger] out@[i].name@,
            ) by {
                if j < p {
                    assert(out@[i] == prior[i] && out@[j] == prior[j]);
                } else if j == p {
                    assert(out@[i] == prior[i]);
                } else if i < p {
                    assert(out@[i] == prior[i] && out@[j] == prior[j - 1]);
                    assert(!lex_lt(x.name@, prior[i].name@));
                    assert(lex_lt(x.name@, prior[j - 1].name@));
                    if lex_lt(prior[j - 1].name@, prior[i].name@) {
                        lemma_lex_transitive(x.name@, prior[j - 1].name@, prior[i].name@);
                    }
                } else if i == p {
                    assert(out@[j] == prior[j - 1]);
                    assert(lex_lt(x.name@, prior[j - 1].name@));
                    lemma_lex_asymmetric(x.name@, prior[j - 1].name@);
                } else {
                    assert(out@[i] == prior[i - 1] && out@[j] == prior[j - 1]);
                }
            }
            let lo = prior.take(p as int);
            let hi = prior.skip(p as int);
            assert(prior =~= lo + hi);
            assert(out@ =~= lo + seq![x] + hi);
            assert(all.take(k + 1) =~= all.take(k as int).push(x));
            assert forall|name: Seq<char>| #[trigger] named(out@, name) == named(
                all.take(k + 1),
                name,
            ) by {
                lemma_named_concat(lo, hi, name);
                lemma_named_concat(lo + seq![x], hi, name);
                lemma_named_concat(lo, seq![x], name);
                assert(seq![x] =~= Seq::<DirEntry>::empty().push(x));
                assert(named(Seq::<DirEntry>::empty(), name) =~= Seq::<DirEntry>::empty());
                assert(seq![x].drop_last() =~= Seq::<DirEntry>::empty());
                assert(seq![x].last() == x);
                assert(all.take(k + 1).drop_last() =~= all.take(k as int));
                if x.name@ == name {
                    assert forall|i: int| 0 <= i < hi.len() implies (#[trigger] hi[i]).name@ != name by {
                        assert(hi[i] == prior[p + i]);
                        assert(lex_lt(x.name@, prior[p + i].name@));
                        lemma_lex_irreflexive(x.name@);
                    }
                    lemma_named_none(hi, name);
                    assert(named(seq![x], name) =~= seq![x]);
                    assert(named(lo, name) + seq![x] + Seq::<DirEntry>::empty() =~= named(lo, name).push(x));
                    assert(named(lo, name) + Seq::<DirEntry>::empty() =~= named(lo, name));
                } else {
                    assert(named(seq![x], name) =~= Seq::<DirEntry>::empty());
                    assert(named(lo, name) + Seq::<DirEntry>::empty() =~= named(lo, name));
                }
            }
        }
        k = k + 1;
    }
    assert(input@.to_multiset() =~= Multiset::<DirEntry>::empty());
    assert(all.take(k as int) =~= all);
    out
}

/// Read-only file access beneath a root directory.
pub struct FilesConnector {
    id: String,
    /// The root directory's path, as raw bytes: a path need not be text.
    root: Vec<u8>,
}

impl FilesConnector {
    /// The connector id.
    pub closed spec fn id_spec(&self) -> Seq<char> {
        self.id@
    }

    /// The root directory's path, as raw bytes.
    pub closed spec fn root_spec(&self) -> Seq<u8> {
        self.root@
    }

    /// Serve `root` under the connector id `id`.
    pub fn new(id: String, root: Vec<u8>) -> (r: Self)
        ensures
            r.id_spec() == id@,
            r.root_spec() == root@,
    {
        FilesConnector { id, root }
    }

    /// The directory this connector is confined to.
    pub fn root(&self) -> (r: &[u8])
        ensures
            r@ == self.root_spec(),
    {
        self.root.as_slice()
    }

    /// How this connector appears in a registration: a files connector under
    /// its id.
    pub fn descriptor(&self) -> (r: ConnectorDescriptor)
        ensures
            r.id@ == self.id_spec(),
            r.kind == ConnectorKind::Files,
    {
        ConnectorDescriptor { id: self.id.clone(), kind: ConnectorKind::Files }
    }

    /// Which method a call names; anything but `list` and `read` is refused.
    pub fn method_of(method: &str) -> (r: Result<FilesMethod, NodeError>)
        ensures
            method@ == "list"@ ==> r == Ok::<FilesMethod, NodeError>(FilesMethod::List),
            method@ == "read"@ ==> r == Ok::<FilesMethod, NodeError>(FilesMethod::Read),
            method@ != "list"@ && method@ != "read"@ ==> (r matches Err(NodeError::Rejected(m))
                && m@ == "unknown method `"@ + method@ + "`"@),
    {
        proof {
            reveal_strlit("list");
            reveal_strlit("read");
            assert("read"@[0] != "list"@[0]);
        }
        if same_text(method, "list") {
            Ok(FilesMethod::List)
        } else if same_text(method, "read") {
            Ok(FilesMethod::Read)
        } else {
            let mut m = String::from_str("unknown method `");
            m.append(method);
            m.append("`");
            Err(NodeError::Rejected(m))
        }
    }

    /// Refuse a request path that leaves the root on its face: an absolute
    /// path, or one with a `..` segment.
    pub fn check_request_path(requested: &str) -> (r: Result<(), NodeError>)
        ensures
            r is Ok <==> !escapes_lexically(requested@),
            r matches Err(e) ==> (e matches NodeError::Rejected(m) && m@ == escape_message()),
    {
        let cs = chars_of(requested);
        let n = cs.len();
        if n > 0 && cs[0] == '/' {
            return Err(NodeError::Rejected(String::from_str("path escapes the connector root")));
        }
        let mut i: usize = 0;
        while i < n
            invariant
                cs@ == requested@,
                n == cs@.len(),
                i <= n,
                forall|j: int| 0 <= j < i ==> !#[trigger] parent_segment_at(requested@, j),
            decreases n - i,
        {
            if n - i >= 2 && cs[i] == '.' && cs[i + 1] == '.' && (i == 0 || cs[i - 1] == '/') && (
            n - i == 2 || cs[i + 2] == '/') {
                assert(parent_segment_at(requested@, i as int));
                return Err(NodeError::Rejected(String::from_str("path escapes the connector root")));
            }
            i = i + 1;
        }
        assert forall|j: int| !#[trigger] parent_segment_at(requested@, j) by {
            if 0 <= j < n {
            }
        }
        Ok(())
    }

    /// Refuse a resolved path that is not at or under the resolved root.
    /// Both are canonical paths, given as their raw bytes, which need not be
    /// text.
    pub fn check_confined(canonical: &[u8], canonical_root: &[u8]) -> (r: Result<(), NodeError>)
        ensures
            r is Ok <==> lies_under(canonical@, canonical_root@),
            r matches Err(e) ==> (e matches NodeError::Rejected(m) && m@ == escape_message()),
    {
        let n = canonical.len();
        let k = canonical_root.len();
        let ok = if n < k {
            false
        } else {
            let mut i: usize = 0;
            let mut same = true;
            while i < k
                invariant
                    k == canonical_root@.len(),
                    n == canonical@.len(),
                    k <= n,
                    i <= k,
                    same == (forall|j: int| 0 <= j < i ==> canonical@[j] == canonical_root@[j]),
                decreases k - i,
            {
                if canonical[i] != canonical_root[i] {
                    same = false;
                }
                i = i + 1;
            }
            assert(same == (canonical@.take(k as int) =~= canonical_root@));
            if n == k {
                assert(same == (canonical@ =~= canonical_root@)) by {
                    assert(canonical@.take(k as int) =~= canonical@);
                }
                same
            } else {
                same && (canonical[k] == 0x2f || (k > 0 && canonical_root[k - 1] == 0x2f))
            }
        };
        if ok {
            Ok(())
        } else {
            Err(NodeError::Rejected(String::from_str("path escapes the connector root")))
        }
    }
}

} // verus!

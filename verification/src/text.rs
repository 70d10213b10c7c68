//! Text helpers: comparing names by their characters.
//!
//! Names in the mesh (nodes, links, connector ids) are ordered the way a
//! sorted map of strings orders them: lexicographically, character by
//! character, by code point.
use vstd::prelude::*;

verus! {

/// Strict lexicographic order on character sequences, by code point.
pub open spec fn lex_lt(a: Seq<char>, b: Seq<char>) -> bool
    decreases a.len(),
{
    if b.len() == 0 {
        false
    } else if a.len() == 0 {
        true
    } else if (a[0] as int) < (b[0] as int) {
        true
    } else if a[0] == b[0] {
        lex_lt(a.drop_first(), b.drop_first())
    } else {
        false
    }
}

/// No name is below itself.
pub proof fn lemma_lex_irreflexive(a: Seq<char>)
    ensures
        !lex_lt(a, a),
    decreases a.len(),
{
    if a.len() > 0 {
        lemma_lex_irreflexive(a.drop_first());
    }
}

/// The order is transitive.
pub proof fn lemma_lex_transitive(a: Seq<char>, b: Seq<char>, c: Seq<char>)
    requires
        lex_lt(a, b),
        lex_lt(b, c),
    ensures
        lex_lt(a, c),
    decreases a.len(),
{
    if a.len() > 0 && b.len() > 0 && c.len() > 0 && a[0] == b[0] && b[0] == c[0] {
        lemma_lex_transitive(a.drop_first(), b.drop_first(), c.drop_first());
    }
}

/// Two different names are ordered one way or the other.
pub proof fn lemma_lex_total(a: Seq<char>, b: Seq<char>)
    requires
        a != b,
    ensures
        lex_lt(a, b) || lex_lt(b, a),
    decreases a.len(),
{
    if a.len() == 0 {
        assert(b.len() > 0) by {
            if b.len() == 0 {
                assert(a =~= b);
            }
        }
    } else if b.len() == 0 {
    } else if a[0] == b[0] {
        if a.drop_first() == b.drop_first() {
            assert(a =~= b) by {
                assert(a.len() == a.drop_first().len() + 1);
                assert(b.len() == b.drop_first().len() + 1);
                assert forall|i: int| 0 <= i < a.len() implies a[i] == b[i] by {
                    if i > 0 {
                        assert(a[i] == a.drop_first()[i - 1]);
                        assert(b[i] == b.drop_first()[i - 1]);
                    }
                }
            }
        }
        lemma_lex_total(a.drop_first(), b.drop_first());
    }
}

/// The order is asymmetric.
pub proof fn lemma_lex_asymmetric(a: Seq<char>, b: Seq<char>)
    requires
        lex_lt(a, b),
    ensures
        !lex_lt(b, a),
{
    if lex_lt(b, a) {
        lemma_lex_transitive(a, b, a);
        lemma_lex_irreflexive(a);
    }
}

/// A name comes before every longer name it begins: `node` before
/// `node-2`, `file` before `file.txt`.
pub proof fn lemma_prefix_comes_first(a: Seq<char>, b: Seq<char>)
    requires
        b.len() > 0,
    ensures
        lex_lt(a, a + b),
    decreases a.len(),
{
    if a.len() == 0 {
        assert(a + b =~= b);
    } else {
        assert((a + b)[0] == a[0]);
        assert((a + b).drop_first() =~= a.drop_first() + b);
        lemma_prefix_comes_first(a.drop_first(), b);
    }
}

/// Past a common beginning, the first differing character decides, by
/// code point, whatever follows.
pub proof fn lemma_first_difference_decides(
    p: Seq<char>,
    x: char,
    y: char,
    t: Seq<char>,
    u: Seq<char>,
)
    requires
        (x as int) < (y as int),
    ensures
        lex_lt(p.push(x) + t, p.push(y) + u),
    decreases p.len(),
{
    let a = p.push(x) + t;
    let b = p.push(y) + u;
    if p.len() == 0 {
        assert(a[0] == x && b[0] == y);
    } else {
        assert(a[0] == p[0] && b[0] == p[0]);
        assert(a.drop_first() =~= p.drop_first().push(x) + t);
        assert(b.drop_first() =~= p.drop_first().push(y) + u);
        lemma_first_difference_decides(p.drop_first(), x, y, t, u);
    }
}

/// Names in strictly ascending order along `s`.
pub open spec fn strictly_sorted(s: Seq<Seq<char>>) -> bool {
    forall|i: int, j: int| 0 <= i < j < s.len() ==> lex_lt(#[trigger] s[i], #[trigger] s[j])
}

/// Two strictly ascending lists of the same names are the same list.
pub proof fn lemma_sorted_unique(a: Seq<Seq<char>>, b: Seq<Seq<char>>)
    requires
        strictly_sorted(a),
        strictly_sorted(b),
        forall|x: Seq<char>| a.contains(x) <==> b.contains(x),
    ensures
        a == b,
    decreases a.len(),
{
    if a.len() == 0 {
        if b.len() > 0 {
            assert(b.contains(b[0]));
        }
        assert(a =~= b);
    } else if b.len() == 0 {
        assert(a.contains(a[0]));
    } else {
        assert(a.contains(a[0]));
        assert(b.contains(b[0]));
        let j = choose|j: int| 0 <= j < b.len() && b[j] == a[0];
        let k = choose|k: int| 0 <= k < a.len() && a[k] == b[0];
        if j > 0 {
            assert(lex_lt(b[0], b[j]));
            if k > 0 {
                assert(lex_lt(a[0], a[k]));
                lemma_lex_asymmetric(a[0], a[k]);
            } else {
                lemma_lex_irreflexive(a[0]);
            }
        }
        assert(a[0] == b[0]);
        let ta = a.drop_first();
        let tb = b.drop_first();
        assert forall|x: Seq<char>| ta.contains(x) <==> tb.contains(x) by {
            if ta.contains(x) {
                let i = choose|i: int| 0 <= i < ta.len() && ta[i] == x;
                assert(a[i + 1] == x);
                assert(lex_lt(a[0], x));
                lemma_lex_irreflexive(x);
                assert(b.contains(x));
                let i2 = choose|i2: int| 0 <= i2 < b.len() && b[i2] == x;
                assert(i2 != 0);
                assert(tb[i2 - 1] == x);
            }
            if tb.contains(x) {
                let i = choose|i: int| 0 <= i < tb.len() && tb[i] == x;
                assert(b[i + 1] == x);
                assert(lex_lt(b[0], x));
                lemma_lex_irreflexive(x);
                assert(a.contains(x));
                let i2 = choose|i2: int| 0 <= i2 < a.len() && a[i2] == x;
                assert(i2 != 0);
                assert(ta[i2 - 1] == x);
            }
        }
        assert(strictly_sorted(ta)) by {
            assert forall|i: int, j2: int| 0 <= i < j2 < ta.len() implies lex_lt(#[trigger] ta[i], #[trigger] ta[j2]) by {
                assert(ta[i] == a[i + 1] && ta[j2] == a[j2 + 1]);
            }
        }
        assert(strictly_sorted(tb)) by {
            assert forall|i: int, j2: int| 0 <= i < j2 < tb.len() implies lex_lt(#[trigger] tb[i], #[trigger] tb[j2]) by {
                assert(tb[i] == b[i + 1] && tb[j2] == b[j2 + 1]);
            }
        }
        lemma_sorted_unique(ta, tb);
        assert(a =~= b) by {
            assert forall|i: int| 0 <= i < a.len() implies a[i] == b[i] by {
                if i > 0 {
                    assert(a[i] == ta[i - 1] && b[i] == tb[i - 1]);
                }
            }
        }
    }
}

/// Skipping a common prefix does not change how two names compare.
proof fn lemma_lex_step(a: Seq<char>, b: Seq<char>, i: int)
    requires
        0 <= i < a.len(),
        i < b.len(),
        a[i] == b[i],
    ensures
        lex_lt(a.skip(i), b.skip(i)) == lex_lt(a.skip(i + 1), b.skip(i + 1)),
{
    assert(a.skip(i).drop_first() =~= a.skip(i + 1));
    assert(b.skip(i).drop_first() =~= b.skip(i + 1));
}

/// The characters of `s`, in order.
pub fn chars_of(s: &str) -> (v: Vec<char>)
    ensures
        v@ == s@,
{
    let mut v: Vec<char> = Vec::new();
    for c in it: s.chars()
        invariant
            v@ == it.seq().take(it.index() as int),
            it.seq() == s@,
    {
        v.push(c);
    }
    v
}

/// Whether `a` sorts strictly before `b`.
pub fn text_lt(a: &str, b: &str) -> (r: bool)
    ensures
        r == lex_lt(a@, b@),
{
    let av = chars_of(a);
    let bv = chars_of(b);
    let mut i: usize = 0;
    assert(a@.skip(0) =~= a@);
    assert(b@.skip(0) =~= b@);
    while i < av.len() && i < bv.len()
        invariant
            i <= av.len(),
            i <= bv.len(),
            av@ == a@,
            bv@ == b@,
            lex_lt(a@, b@) == lex_lt(a@.skip(i as int), b@.skip(i as int)),
        decreases av.len() - i,
    {
        if av[i] != bv[i] {
            assert(a@.skip(i as int)[0] == a@[i as int]);
            assert(b@.skip(i as int)[0] == b@[i as int]);
            return av[i] < bv[i];
        }
        proof {
            lemma_lex_step(a@, b@, i as int);
        }
        i = i + 1;
    }
    i < bv.len()
}

/// Whether `a` and `b` hold the same characters.
pub fn same_text(a: &str, b: &str) -> (r: bool)
    ensures
        r == (a@ == b@),
{
    let av = chars_of(a);
    let bv = chars_of(b);
    if av.len() != bv.len() {
        return false;
    }
    let mut i: usize = 0;
    while i < av.len()
        invariant
            i <= av.len(),
            av.len() == bv.len(),
            av@ == a@,
            bv@ == b@,
            forall|j: int| 0 <= j < i ==> a@[j] == b@[j],
        decreases av.len() - i,
    {
        if av[i] != bv[i] {
            return false;
        }
        i = i + 1;
    }
    assert(a@ =~= b@);
    true
}

} // verus!

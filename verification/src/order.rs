//! Three-way comparison and the lexicographic orders used by the optimizer:
//! on integer vectors, on character sequences, and on sequences of those.
use vstd::prelude::*;

verus! {

/// The outcome of a three-way comparison.
#[derive(Debug, Clone, Copy, PartialEq, Eq, Structural)]
pub enum Rel {
    Less,
    Equal,
    Greater,
}

/// A comparison outcome as -1, 0 or 1.
pub open spec fn rel_sign(c: Rel) -> int {
    match c {
        Rel::Less => -1,
        Rel::Equal => 0,
        Rel::Greater => 1,
    }
}

/// Lexicographic comparison of `a[i..]` against `b[i..]` (equal lengths
/// assumed; positions past `a`'s end compare equal): -1, 0 or 1.
pub open spec fn lex_from(a: Seq<int>, b: Seq<int>, i: int) -> int
    decreases a.len() - i,
{
    if i < 0 || i >= a.len() {
        0
    } else if a[i] < b[i] {
        -1
    } else if a[i] > b[i] {
        1
    } else {
        lex_from(a, b, i + 1)
    }
}

/// Lexicographic comparison of whole vectors.
pub open spec fn lex(a: Seq<int>, b: Seq<int>) -> int {
    lex_from(a, b, 0)
}

/// Swapping the arguments negates the comparison.
pub proof fn lemma_lex_from_antisym(a: Seq<int>, b: Seq<int>, i: int)
    requires
        a.len() == b.len(),
        0 <= i,
    ensures
        lex_from(a, b, i) == -lex_from(b, a, i),
    decreases a.len() - i,
{
    if i < a.len() && a[i] == b[i] {
        lemma_lex_from_antisym(a, b, i + 1);
    }
}

/// The comparison is transitive, and strict when either step is.
pub proof fn lemma_lex_from_trans(a: Seq<int>, b: Seq<int>, c: Seq<int>, i: int)
    requires
        a.len() == b.len(),
        b.len() == c.len(),
        0 <= i,
        lex_from(a, b, i) <= 0,
        lex_from(b, c, i) <= 0,
    ensures
        lex_from(a, c, i) <= 0,
        (lex_from(a, b, i) < 0 || lex_from(b, c, i) < 0) ==> lex_from(a, c, i) < 0,
    decreases a.len() - i,
{
    if i < a.len() && a[i] == b[i] && b[i] == c[i] {
        lemma_lex_from_trans(a, b, c, i + 1);
    }
}

/// A componentwise-smaller-or-equal vector never compares greater.
pub proof fn lemma_lex_from_pointwise(a: Seq<int>, b: Seq<int>, i: int)
    requires
        a.len() == b.len(),
        0 <= i,
        forall|k: int| i <= k < a.len() ==> a[k] <= b[k],
    ensures
        lex_from(a, b, i) <= 0,
    decreases a.len() - i,
{
    if i < a.len() && a[i] == b[i] {
        lemma_lex_from_pointwise(a, b, i + 1);
    }
}

/// Equal vectors compare equal, and vectors comparing equal are equal.
pub proof fn lemma_lex_from_zero(a: Seq<int>, b: Seq<int>, i: int)
    requires
        a.len() == b.len(),
        0 <= i <= a.len(),
    ensures
        lex_from(a, b, i) == 0 <==> a.subrange(i, a.len() as int) == b.subrange(i, b.len() as int),
    decreases a.len() - i,
{
    if i < a.len() {
        lemma_lex_from_zero(a, b, i + 1);
        if a[i] == b[i] && lex_from(a, b, i + 1) == 0 {
            assert(a.subrange(i, a.len() as int) =~= b.subrange(i, b.len() as int)) by {
                assert forall|k: int| 0 <= k < a.len() - i implies a.subrange(i, a.len() as int)[k]
                    == b.subrange(i, b.len() as int)[k] by {
                    if k > 0 {
                        assert(a.subrange(i + 1, a.len() as int)[k - 1] == b.subrange(i + 1, b.len() as int)[k - 1]);
                    }
                }
            }
        }
        if a.subrange(i, a.len() as int) == b.subrange(i, b.len() as int) {
            assert(a[i] == a.subrange(i, a.len() as int)[0]);
            assert(b[i] == b.subrange(i, b.len() as int)[0]);
            assert(a.subrange(i + 1, a.len() as int) =~= a.subrange(i, a.len() as int).subrange(1, a.len() - i));
            assert(b.subrange(i + 1, b.len() as int) =~= b.subrange(i, b.len() as int).subrange(1, b.len() - i));
        }
    } else {
        assert(a.subrange(i, a.len() as int) =~= b.subrange(i, b.len() as int));
    }
}

/// Comparison of character sequences as std orders strings: by the first
/// differing character, a proper prefix coming first.
pub open spec fn str_order(a: Seq<char>, b: Seq<char>) -> int
    decreases a.len(),
{
    if a.len() == 0 && b.len() == 0 {
        0
    } else if a.len() == 0 {
        -1
    } else if b.len() == 0 {
        1
    } else if a[0] < b[0] {
        -1
    } else if a[0] > b[0] {
        1
    } else {
        str_order(a.drop_first(), b.drop_first())
    }
}

pub proof fn lemma_str_order_antisym(a: Seq<char>, b: Seq<char>)
    ensures
        str_order(a, b) == -str_order(b, a),
    decreases a.len(),
{
    if a.len() > 0 && b.len() > 0 && a[0] == b[0] {
        lemma_str_order_antisym(a.drop_first(), b.drop_first());
    }
}

pub proof fn lemma_str_order_zero(a: Seq<char>, b: Seq<char>)
    ensures
        str_order(a, b) == 0 <==> a == b,
    decreases a.len(),
{
    if a.len() > 0 && b.len() > 0 {
        lemma_str_order_zero(a.drop_first(), b.drop_first());
        if a[0] == b[0] && a.drop_first() == b.drop_first() {
            assert(a =~= seq![a[0]] + a.drop_first());
            assert(b =~= seq![b[0]] + b.drop_first());
        }
        if a == b {
            assert(a.drop_first() =~= b.drop_first());
        }
    } else if a.len() == 0 && b.len() == 0 {
        assert(a =~= b);
    }
}

pub proof fn lemma_str_order_trans(a: Seq<char>, b: Seq<char>, c: Seq<char>)
    requires
        str_order(a, b) <= 0,
        str_order(b, c) <= 0,
    ensures
        str_order(a, c) <= 0,
        (str_order(a, b) < 0 || str_order(b, c) < 0) ==> str_order(a, c) < 0,
    decreases a.len(),
{
    if a.len() > 0 && b.len() > 0 && c.len() > 0 && a[0] == b[0] && b[0] == c[0] {
        lemma_str_order_trans(a.drop_first(), b.drop_first(), c.drop_first());
    }
}

/// Comparison of sequences of strings as std orders `Vec<String>`.
pub open spec fn keys_order(a: Seq<Seq<char>>, b: Seq<Seq<char>>) -> int
    decreases a.len(),
{
    if a.len() == 0 && b.len() == 0 {
        0
    } else if a.len() == 0 {
        -1
    } else if b.len() == 0 {
        1
    } else if str_order(a[0], b[0]) != 0 {
        str_order(a[0], b[0])
    } else {
        keys_order(a.drop_first(), b.drop_first())
    }
}

pub proof fn lemma_keys_order_antisym(a: Seq<Seq<char>>, b: Seq<Seq<char>>)
    ensures
        keys_order(a, b) == -keys_order(b, a),
    decreases a.len(),
{
    if a.len() > 0 && b.len() > 0 {
        lemma_str_order_antisym(a[0], b[0]);
        lemma_keys_order_antisym(a.drop_first(), b.drop_first());
    }
}

pub proof fn lemma_keys_order_zero(a: Seq<Seq<char>>, b: Seq<Seq<char>>)
    ensures
        keys_order(a, b) == 0 <==> a == b,
    decreases a.len(),
{
    if a.len() > 0 && b.len() > 0 {
        lemma_str_order_zero(a[0], b[0]);
        lemma_keys_order_zero(a.drop_first(), b.drop_first());
        if a[0] == b[0] && a.drop_first() == b.drop_first() {
            assert(a =~= seq![a[0]] + a.drop_first());
            assert(b =~= seq![b[0]] + b.drop_first());
        }
        if a == b {
            assert(a.drop_first() =~= b.drop_first());
        }
    } else if a.len() == 0 && b.len() == 0 {
        assert(a =~= b);
    }
}

pub proof fn lemma_keys_order_trans(a: Seq<Seq<char>>, b: Seq<Seq<char>>, c: Seq<Seq<char>>)
    requires
        keys_order(a, b) <= 0,
        keys_order(b, c) <= 0,
    ensures
        keys_order(a, c) <= 0,
        (keys_order(a, b) < 0 || keys_order(b, c) < 0) ==> keys_order(a, c) < 0,
    decreases a.len(),
{
    if a.len() > 0 && b.len() > 0 && c.len() > 0 {
        lemma_str_order_antisym(a[0], b[0]);
        lemma_str_order_antisym(b[0], c[0]);
        lemma_str_order_zero(a[0], b[0]);
        lemma_str_order_zero(b[0], c[0]);
        if str_order(a[0], b[0]) <= 0 && str_order(b[0], c[0]) <= 0 {
            lemma_str_order_trans(a[0], b[0], c[0]);
        }
        if str_order(a[0], b[0]) == 0 && str_order(b[0], c[0]) == 0 {
            lemma_keys_order_trans(a.drop_first(), b.drop_first(), c.drop_first());
        }
    }
}

/// Compares two strings as std orders them.
pub fn compare_str(a: &str, b: &str) -> (r: Rel)
    ensures
        rel_sign(r) == str_order(a@, b@),
{
    let n = a.unicode_len();
    let m = b.unicode_len();
    let mut i: usize = 0;
    assert(a@.skip(0) =~= a@);
    assert(b@.skip(0) =~= b@);
    while i < n && i < m
        invariant
            n == a@.len(),
            m == b@.len(),
            i <= n,
            i <= m,
            str_order(a@, b@) == str_order(a@.skip(i as int), b@.skip(i as int)),
        decreases n - i,
    {
        let x = a.get_char(i);
        let y = b.get_char(i);
        assert(a@.skip(i as int)[0] == x);
        assert(b@.skip(i as int)[0] == y);
        if x < y {
            return Rel::Less;
        }
        if x > y {
            return Rel::Greater;
        }
        assert(a@.skip(i as int).drop_first() =~= a@.skip(i + 1));
        assert(b@.skip(i as int).drop_first() =~= b@.skip(i + 1));
        i += 1;
    }
    if n == m {
        Rel::Equal
    } else if i == n {
        Rel::Less
    } else {
        Rel::Greater
    }
}

/// The views of a slice of strings.
pub open spec fn string_views(v: Seq<String>) -> Seq<Seq<char>> {
    v.map_values(|s: String| s@)
}

/// Compares two lists of strings as std orders `Vec<String>`.
pub fn compare_keys(a: &[String], b: &[String]) -> (r: Rel)
    ensures
        rel_sign(r) == keys_order(string_views(a@), string_views(b@)),
{
    let ghost av = string_views(a@);
    let ghost bv = string_views(b@);
    let mut i: usize = 0;
    assert(av.skip(0) =~= av);
    assert(bv.skip(0) =~= bv);
    while i < a.len() && i < b.len()
        invariant
            av == string_views(a@),
            bv == string_views(b@),
            i <= a@.len(),
            i <= b@.len(),
            keys_order(av, bv) == keys_order(av.skip(i as int), bv.skip(i as int)),
        decreases a@.len() - i,
    {
        let c = compare_str(a[i].as_str(), b[i].as_str());
        assert(av.skip(i as int)[0] == a@[i as int]@);
        assert(bv.skip(i as int)[0] == b@[i as int]@);
        match c {
            Rel::Equal => {},
            _ => {
                return c;
            },
        }
        assert(av.skip(i as int).drop_first() =~= av.skip(i + 1));
        assert(bv.skip(i as int).drop_first() =~= bv.skip(i + 1));
        i += 1;
    }
    if a.len() == b.len() {
        Rel::Equal
    } else if i == a.len() {
        Rel::Less
    } else {
        Rel::Greater
    }
}

} // verus!

//! Lexicographic ordering of strings, by Unicode scalar value.
//!
//! Slugs are compared and kept sorted with this order, so that iteration
//! over a slug set is deterministic.

use vstd::prelude::*;

verus! {

/// Strict lexicographic order on character sequences, by scalar value.
pub open spec fn str_lt(a: Seq<char>, b: Seq<char>) -> bool
    decreases a.len(),
{
    if b.len() == 0 {
        false
    } else if a.len() == 0 {
        true
    } else if (a[0] as u32) < (b[0] as u32) {
        true
    } else if (a[0] as u32) > (b[0] as u32) {
        false
    } else {
        str_lt(a.skip(1), b.skip(1))
    }
}

/// The order is irreflexive.
pub proof fn lemma_str_lt_irrefl(a: Seq<char>)
    ensures
        !str_lt(a, a),
    decreases a.len(),
{
    if a.len() > 0 {
        lemma_str_lt_irrefl(a.skip(1));
    }
}

/// The order is transitive.
pub proof fn lemma_str_lt_trans(a: Seq<char>, b: Seq<char>, c: Seq<char>)
    requires
        str_lt(a, b),
        str_lt(b, c),
    ensures
        str_lt(a, c),
    decreases a.len() + b.len() + c.len(),
{
    if c.len() == 0 || a.len() == 0 {
        // str_lt(b, c) forces c.len() > 0; an empty a is below any non-empty c.
    } else if b.len() == 0 {
        // impossible: str_lt(a, b) requires b non-empty
    } else {
        if (a[0] as u32) == (b[0] as u32) && (b[0] as u32) == (c[0] as u32) {
            lemma_str_lt_trans(a.skip(1), b.skip(1), c.skip(1));
        }
    }
}

/// Two sequences below one another would contradict irreflexivity.
pub proof fn lemma_str_lt_asymm(a: Seq<char>, b: Seq<char>)
    requires
        str_lt(a, b),
    ensures
        !str_lt(b, a),
        a != b,
{
    lemma_str_lt_irrefl(a);
    if str_lt(b, a) {
        lemma_str_lt_trans(a, b, a);
    }
}

/// If two sequences agree on a prefix and differ right after it (or one ends
/// there), the one with the smaller continuation is below the other.
proof fn lemma_str_lt_prefix(a: Seq<char>, b: Seq<char>, i: int)
    requires
        0 <= i <= a.len(),
        0 <= i <= b.len(),
        forall|j: int| 0 <= j < i ==> a[j] == b[j],
        (i < a.len() && i < b.len() && (a[i] as u32) < (b[i] as u32)) || (i == a.len() && i
            < b.len()),
    ensures
        str_lt(a, b),
    decreases i,
{
    if i == 0 {
    } else {
        lemma_str_lt_prefix(a.skip(1), b.skip(1), i - 1);
    }
}

/// If two sequences agree everywhere up to their common length, they are equal.
proof fn lemma_str_eq_from_prefix(a: Seq<char>, b: Seq<char>)
    requires
        a.len() == b.len(),
        forall|j: int| 0 <= j < a.len() ==> a[j] == b[j],
    ensures
        a == b,
{
    assert(a =~= b);
}

/// Three-way comparison of two strings in the lexicographic order:
/// -1 when `a` is below `b`, 0 when they are equal, 1 when above.
pub fn cmp_str(a: &str, b: &str) -> (r: i8)
    ensures
        r == -1 ==> str_lt(a@, b@) && a@ != b@,
        r == 0 ==> a@ == b@,
        r == 1 ==> str_lt(b@, a@) && a@ != b@,
        -1 <= r <= 1,
{
    let a_len = a.unicode_len();
    let b_len = b.unicode_len();
    let mut i: usize = 0;
    while i < a_len && i < b_len
        invariant
            0 <= i <= a_len,
            0 <= i <= b_len,
            a_len == a@.len(),
            b_len == b@.len(),
            forall|j: int| 0 <= j < i ==> a@[j] == b@[j],
        decreases a_len - i,
    {
        let ca = a.get_char(i);
        let cb = b.get_char(i);
        if (ca as u32) < (cb as u32) {
            proof {
                lemma_str_lt_prefix(a@, b@, i as int);
                lemma_str_lt_asymm(a@, b@);
            }
            return -1;
        }
        if (ca as u32) > (cb as u32) {
            proof {
                lemma_str_lt_prefix(b@, a@, i as int);
                lemma_str_lt_asymm(b@, a@);
            }
            return 1;
        }
        assert(a@[i as int] == b@[i as int]);
        i = i + 1;
    }
    if a_len < b_len {
        proof {
            lemma_str_lt_prefix(a@, b@, a_len as int);
            lemma_str_lt_asymm(a@, b@);
        }
        -1
    } else if b_len < a_len {
        proof {
            lemma_str_lt_prefix(b@, a@, b_len as int);
            lemma_str_lt_asymm(b@, a@);
        }
        1
    } else {
        proof {
            lemma_str_eq_from_prefix(a@, b@);
        }
        0
    }
}

/// Strict sortedness of a sequence of strings under the lexicographic order.
pub open spec fn sorted_strict(s: Seq<Seq<char>>) -> bool {
    forall|i: int, j: int| 0 <= i < j < s.len() ==> str_lt(#[trigger] s[i], #[trigger] s[j])
}

/// In a strictly sorted sequence, distinct positions hold distinct strings.
pub proof fn lemma_sorted_distinct(s: Seq<Seq<char>>, i: int, j: int)
    requires
        sorted_strict(s),
        0 <= i < s.len(),
        0 <= j < s.len(),
        i != j,
    ensures
        s[i] != s[j],
{
    if i < j {
        lemma_str_lt_asymm(s[i], s[j]);
    } else {
        lemma_str_lt_asymm(s[j], s[i]);
    }
}

} // verus!

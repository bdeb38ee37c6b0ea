//! The lexicographic order on strings by which relation names are kept.

use vstd::prelude::*;
use vstd::std_specs::iter::IteratorSpec;

verus! {

broadcast use vstd::string::group_string_axioms;

/// The position of a character in the code charts.
pub open spec fn code(c: char) -> int {
    c as u32 as int
}

/// `a` comes strictly before `b`: at the first position where they differ
/// `a` has ended, or holds the character of the smaller code.
pub open spec fn lex_lt(a: Seq<char>, b: Seq<char>) -> bool {
    exists|k: int| first_difference(a, b, k)
}

/// `a` and `b` agree before position `k`, and at `k` the string `a` has
/// ended or holds the smaller character while `b` goes on.
pub open spec fn first_difference(a: Seq<char>, b: Seq<char>, k: int) -> bool {
    &&& 0 <= k <= a.len()
    &&& k < b.len()
    &&& forall|i: int| 0 <= i < k ==> a[i] == b[i]
    &&& (k == a.len() || code(a[k]) < code(b[k]))
}

/// Distinct characters have distinct codes.
pub proof fn lemma_code_injective(x: char, y: char)
    ensures
        code(x) == code(y) ==> x == y,
{
    vstd::utf8::char_u32_cast(x, x as u32);
    vstd::utf8::char_u32_cast(y, y as u32);
}

/// No string comes before itself.
pub proof fn lemma_lex_lt_irreflexive(a: Seq<char>)
    ensures
        !lex_lt(a, a),
{
}

/// The order is transitive.
pub proof fn lemma_lex_lt_transitive(a: Seq<char>, b: Seq<char>, c: Seq<char>)
    requires
        lex_lt(a, b),
        lex_lt(b, c),
    ensures
        lex_lt(a, c),
{
    let k1 = choose|k: int| first_difference(a, b, k);
    let k2 = choose|k: int| first_difference(b, c, k);
    let k = if k1 <= k2 { k1 } else { k2 };
    assert(first_difference(a, c, k));
}

/// Of two strings at most one comes before the other.
pub proof fn lemma_lex_lt_asymmetric(a: Seq<char>, b: Seq<char>)
    requires
        lex_lt(a, b),
    ensures
        !lex_lt(b, a),
{
    if lex_lt(b, a) {
        lemma_lex_lt_transitive(a, b, a);
        lemma_lex_lt_irreflexive(a);
    }
}

/// How one string stands to another in the lexicographic order.
#[derive(Debug, Clone, Copy, PartialEq, Eq)]
pub enum Position {
    Before,
    Same,
    After,
}

/// Compare two strings character by character.
pub fn compare(a: &str, b: &str) -> (position: Position)
    ensures
        position is Before <==> lex_lt(a@, b@),
        position is Same <==> a@ == b@,
        position is After <==> lex_lt(b@, a@),
{
    let mut rest_a = a.chars();
    let mut rest_b = b.chars();
    let ghost mut k: int = 0;
    loop
        invariant
            0 <= k <= a@.len(),
            k <= b@.len(),
            rest_a.remaining() == a@.skip(k),
            rest_b.remaining() == b@.skip(k),
            forall|i: int| 0 <= i < k ==> a@[i] == b@[i],
        decreases a@.len() - k,
    {
        let next_a = rest_a.next();
        let next_b = rest_b.next();
        match (next_a, next_b) {
            (None, None) => {
                assert(a@ =~= b@);
                proof {
                    lemma_lex_lt_irreflexive(a@);
                }
                return Position::Same;
            },
            (None, Some(_)) => {
                assert(first_difference(a@, b@, k));
                proof {
                    lemma_lex_lt_asymmetric(a@, b@);
                }
                return Position::Before;
            },
            (Some(_), None) => {
                assert(first_difference(b@, a@, k));
                proof {
                    lemma_lex_lt_asymmetric(b@, a@);
                }
                return Position::After;
            },
            (Some(x), Some(y)) => {
                if x != y {
                    if (x as u32) < (y as u32) {
                        assert(first_difference(a@, b@, k));
                        proof {
                            lemma_lex_lt_asymmetric(a@, b@);
                        }
                        return Position::Before;
                    } else {
                        proof {
                            lemma_code_injective(x, y);
                        }
                        assert(first_difference(b@, a@, k));
                        proof {
                            lemma_lex_lt_asymmetric(b@, a@);
                        }
                        return Position::After;
                    }
                }
                proof {
                    k = k + 1;
                }
            },
        }
    }
}

} // verus!

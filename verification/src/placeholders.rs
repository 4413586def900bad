//! Removal of placeholder tokens from launch commands.
//!
//! A desktop entry's `Exec=` value may carry standardized substitution
//! markers (`%f`, `%u`, and so on) that a desktop environment would fill
//! in. A manual launcher has nothing to substitute, so every occurrence
//! of one of the eleven known tokens that is preceded by a single space
//! is removed. A token glued to adjacent text without a leading space is
//! kept. Removal is a single left-to-right pass over non-overlapping
//! occurrences.

use vstd::prelude::*;

verus! {

/// The space character.
pub const SPACE: u8 = 32;

/// The percent sign that opens a placeholder token.
pub const PERCENT: u8 = 37;

/// The letters that may follow `%` in a placeholder token.
pub open spec fn is_placeholder_letter(b: u8) -> bool {
    b == 102  // f
    || b == 70  // F
    || b == 117  // u
    || b == 85  // U
    || b == 100  // d
    || b == 68  // D
    || b == 110  // n
    || b == 78  // N
    || b == 105  // i
    || b == 99  // c
    || b == 107  // k
}

/// A whitespace-prefixed placeholder token (space, percent, letter)
/// starts at position `i` of `s`.
pub open spec fn token_at(s: Seq<u8>, i: int) -> bool {
    0 <= i && i + 3 <= s.len() && s[i] == SPACE && s[i + 1] == PERCENT
        && is_placeholder_letter(s[i + 2])
}

/// The result of removing, in one left-to-right pass, every
/// non-overlapping whitespace-prefixed placeholder token.
pub open spec fn strip_placeholders(s: Seq<u8>) -> Seq<u8>
    decreases s.len(),
{
    if s.len() == 0 {
        Seq::empty()
    } else if token_at(s, 0) {
        strip_placeholders(s.skip(3))
    } else {
        seq![s[0]] + strip_placeholders(s.skip(1))
    }
}

/// Executable check matching `is_placeholder_letter`.
fn placeholder_letter(b: u8) -> (r: bool)
    ensures
        r == is_placeholder_letter(b),
{
    b == 102 || b == 70 || b == 117 || b == 85 || b == 100 || b == 68 || b == 110 || b == 78
        || b == 105 || b == 99 || b == 107
}

/// Removes every whitespace-prefixed placeholder token from `input`.
pub fn remove_placeholders(input: &Vec<u8>) -> (r: Vec<u8>)
    ensures
        r@ == strip_placeholders(input@),
{
    let mut out: Vec<u8> = Vec::new();
    let mut i: usize = 0;
    proof {
        assert(input@.skip(0) =~= input@);
        assert(Seq::<u8>::empty() + strip_placeholders(input@) =~= strip_placeholders(input@));
    }
    while i < input.len()
        invariant
            i <= input.len(),
            strip_placeholders(input@) == out@ + strip_placeholders(input@.skip(i as int)),
        decreases input.len() - i,
    {
        if input.len() - i >= 3 && input[i] == SPACE && input[i + 1] == PERCENT
            && placeholder_letter(input[i + 2]) {
            proof {
                assert(token_at(input@.skip(i as int), 0));
                assert(input@.skip(i as int).skip(3) =~= input@.skip(i as int + 3));
            }
            i = i + 3;
        } else {
            proof {
                let rest = input@.skip(i as int);
                assert(rest[0] == input@[i as int]);
                assert(!token_at(rest, 0));
                assert(rest.skip(1) =~= input@.skip(i as int + 1));
                assert(out@.push(input@[i as int]) =~= out@ + seq![rest[0]]);
                assert(out@ + (seq![rest[0]] + strip_placeholders(rest.skip(1))) =~= (out@
                    + seq![rest[0]]) + strip_placeholders(rest.skip(1)));
            }
            out.push(input[i]);
            i = i + 1;
        }
    }
    proof {
        assert(input@.skip(input@.len() as int) =~= Seq::<u8>::empty());
        assert(out@ + Seq::<u8>::empty() =~= out@);
    }
    out
}

/// A string without any whitespace-prefixed placeholder token is kept
/// unchanged by placeholder removal.
pub proof fn lemma_strip_token_free(s: Seq<u8>)
    requires
        forall|i: int| !token_at(s, i),
    ensures
        strip_placeholders(s) == s,
    decreases s.len(),
{
    if s.len() == 0 {
        assert(strip_placeholders(s) =~= s);
    } else {
        assert(!token_at(s, 0));
        assert forall|i: int| !token_at(s.skip(1), i) by {
            if token_at(s.skip(1), i) {
                assert(s.skip(1)[i] == s[i + 1]);
                assert(s.skip(1)[i + 1] == s[i + 2]);
                assert(s.skip(1)[i + 2] == s[i + 3]);
                assert(token_at(s, i + 1));
            }
        }
        lemma_strip_token_free(s.skip(1));
        assert(seq![s[0]] + s.skip(1) =~= s);
    }
}

/// A whitespace-prefixed placeholder token that follows a token-free
/// prefix is removed: stripping `a + b`, where `a` holds no token and a
/// token starts `b`, keeps `a`, drops the token, and goes on with the
/// rest of `b`.
pub proof fn lemma_strip_removes_token(a: Seq<u8>, b: Seq<u8>)
    requires
        forall|i: int| !token_at(a, i),
        token_at(b, 0),
    ensures
        strip_placeholders(a + b) == a + strip_placeholders(b.skip(3)),
    decreases a.len(),
{
    if a.len() == 0 {
        assert(a + b =~= b);
        assert((a + b).skip(3) =~= b.skip(3));
        assert(token_at(a + b, 0));
        assert(a + strip_placeholders(b.skip(3)) =~= strip_placeholders(b.skip(3)));
    } else {
        let s = a + b;
        assert(s[0] == a[0]);
        assert(!token_at(s, 0)) by {
            if token_at(s, 0) {
                if a.len() >= 3 {
                    assert(s[1] == a[1]);
                    assert(s[2] == a[2]);
                    assert(token_at(a, 0));
                } else if a.len() == 2 {
                    assert(s[2] == b[0]);
                    assert(b[0] == SPACE);
                    assert(!is_placeholder_letter(SPACE));
                } else {
                    assert(s[1] == b[0]);
                    assert(b[0] == SPACE);
                    assert(SPACE != PERCENT);
                }
            }
        }
        assert forall|i: int| !token_at(a.skip(1), i) by {
            if token_at(a.skip(1), i) {
                assert(a.skip(1)[i] == a[i + 1]);
                assert(a.skip(1)[i + 1] == a[i + 2]);
                assert(a.skip(1)[i + 2] == a[i + 3]);
                assert(token_at(a, i + 1));
            }
        }
        lemma_strip_removes_token(a.skip(1), b);
        assert(s.skip(1) =~= a.skip(1) + b);
        assert(seq![a[0]] + (a.skip(1) + strip_placeholders(b.skip(3))) =~= a
            + strip_placeholders(b.skip(3)));
    }
}

} // verus!

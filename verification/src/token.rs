use vstd::prelude::*;
use crate::errors::AuthError;
use crate::text::{
    all_digits, append_fixed_decimal, dec_val, digits_be, fold_hash, hash_chars,
    lemma_digits_be_val, parse_fixed_decimal, pow10,
};

verus! {

/// Fixed lifetime of an issued token, in seconds.
pub const TOKEN_TTL_SECONDS: u64 = 3600;

/// The expiry stamped into a token issued at `now` (saturating at the top of
/// the range).
pub open spec fn expiry_of(now: u64) -> u64 {
    if now + TOKEN_TTL_SECONDS > u64::MAX {
        u64::MAX
    } else {
        (now + TOKEN_TTL_SECONDS) as u64
    }
}

/// The signature over the token payload, keyed by the process-wide secret.
pub open spec fn sig_of(secret: Seq<char>, id: u64, exp: u64) -> u64 {
    vstd::wrapping::u64_specs::wrapping_mul(
        vstd::wrapping::u64_specs::wrapping_mul(fold_hash(secret) ^ id, 1099511628211u64) ^ exp,
        1099511628211u64,
    )
}

/// The exact character sequence of a token: three fixed-width decimal fields
/// (identity, expiry, signature), dot-separated.
pub open spec fn token_chars(id: u64, exp: u64, tag: u64) -> Seq<char> {
    digits_be(id as nat, 20) + seq!['.'] + digits_be(exp as nat, 20) + seq!['.'] + digits_be(
        tag as nat,
        20,
    )
}

/// Shape of a well-formed token string.
pub open spec fn token_well_formed(s: Seq<char>) -> bool {
    &&& s.len() == 62
    &&& s[20] == '.'
    &&& s[41] == '.'
    &&& all_digits(s.subrange(0, 20))
    &&& all_digits(s.subrange(21, 41))
    &&& all_digits(s.subrange(42, 62))
}

/// What verification returns for any token string: the embedded identity when
/// shape, signature and expiry all check out; `Invalid` or `Expired` otherwise.
pub open spec fn verify_spec(secret: Seq<char>, s: Seq<char>, now: u64) -> Result<u64, AuthError> {
    if !token_well_formed(s) {
        Err(AuthError::Invalid)
    } else {
        let a = dec_val(s.subrange(0, 20));
        let b = dec_val(s.subrange(21, 41));
        let c = dec_val(s.subrange(42, 62));
        if a > u64::MAX as nat || b > u64::MAX as nat || c > u64::MAX as nat {
            Err(AuthError::Invalid)
        } else if c != sig_of(secret, a as u64, b as u64) {
            Err(AuthError::Invalid)
        } else if now >= b {
            Err(AuthError::Expired)
        } else {
            Ok(a as u64)
        }
    }
}

/// Issues a signed token embedding `identity` and an expiry `TOKEN_TTL_SECONDS`
/// past `now`. Pure over its arguments; the caller records the session.
pub fn issue(secret: &str, identity: u64, now: u64) -> (r: String)
    ensures
        r@ == token_chars(identity, expiry_of(now), sig_of(secret@, identity, expiry_of(now))),
        r@.len() == 62,
{
    let exp: u64 = if now > u64::MAX - TOKEN_TTL_SECONDS {
        u64::MAX
    } else {
        now + TOKEN_TTL_SECONDS
    };
    let h = hash_chars(secret);
    let tag: u64 = ((h ^ identity).wrapping_mul(1099511628211u64) ^ exp).wrapping_mul(
        1099511628211u64,
    );
    let mut out = String::new();
    append_fixed_decimal(&mut out, identity, 20);
    out.append(".");
    append_fixed_decimal(&mut out, exp, 20);
    out.append(".");
    append_fixed_decimal(&mut out, tag, 20);
    proof {
        reveal_strlit(".");
        lemma_digits_be_val(identity as nat, 20);
        lemma_digits_be_val(exp as nat, 20);
        lemma_digits_be_val(tag as nat, 20);
        assert(out@ =~= token_chars(identity, exp, tag));
    }
    out
}

/// Verifies signature and expiry of a presented token; returns the embedded
/// identity. Does not consult the session cache — revocation is the caller's
/// check.
pub fn verify(secret: &str, token: &str, now: u64) -> (r: Result<u64, AuthError>)
    ensures
        r == verify_spec(secret@, token@, now),
{
    if token.unicode_len() != 62 {
        return Err(AuthError::Invalid);
    }
    if token.get_char(20) != '.' || token.get_char(41) != '.' {
        return Err(AuthError::Invalid);
    }
    let id_part = parse_fixed_decimal(token, 0, 20);
    let exp_part = parse_fixed_decimal(token, 21, 41);
    let tag_part = parse_fixed_decimal(token, 42, 62);
    match (id_part, exp_part, tag_part) {
        (Some(id), Some(exp), Some(tag)) => {
            let h = hash_chars(secret);
            let expect: u64 = ((h ^ id).wrapping_mul(1099511628211u64) ^ exp).wrapping_mul(
                1099511628211u64,
            );
            if tag != expect {
                Err(AuthError::Invalid)
            } else if now >= exp {
                Err(AuthError::Expired)
            } else {
                Ok(id)
            }
        },
        _ => Err(AuthError::Invalid),
    }
}

/// Law: a token straight out of [`issue`] verifies under the same secret —
/// to the issuing identity while the expiry lies ahead, and to `Expired`
/// once it has passed. In particular a token never verifies to a different
/// identity than it was issued for.
pub proof fn lemma_issue_verify_round_trip(secret: Seq<char>, identity: u64, now: u64, later: u64)
    ensures
        verify_spec(secret, token_chars(identity, expiry_of(now), sig_of(secret, identity, expiry_of(now))), later)
            == if later < expiry_of(now) {
                Ok::<u64, AuthError>(identity)
            } else {
                Err::<u64, AuthError>(AuthError::Expired)
            },
{
    let exp = expiry_of(now);
    let tag = sig_of(secret, identity, exp);
    let t = token_chars(identity, exp, tag);
    lemma_digits_be_val(identity as nat, 20);
    lemma_digits_be_val(exp as nat, 20);
    lemma_digits_be_val(tag as nat, 20);
    assert(t.subrange(0, 20) =~= digits_be(identity as nat, 20));
    assert(t.subrange(21, 41) =~= digits_be(exp as nat, 20));
    assert(t.subrange(42, 62) =~= digits_be(tag as nat, 20));
    assert(pow10(20) == 100000000000000000000) by {
        reveal_with_fuel(pow10, 21);
    }
    assert(identity as nat % pow10(20) == identity as nat) by {
        vstd::arithmetic::div_mod::lemma_small_mod(identity as nat, pow10(20));
    }
    assert(exp as nat % pow10(20) == exp as nat) by {
        vstd::arithmetic::div_mod::lemma_small_mod(exp as nat, pow10(20));
    }
    assert(tag as nat % pow10(20) == tag as nat) by {
        vstd::arithmetic::div_mod::lemma_small_mod(tag as nat, pow10(20));
    }
    assert(token_well_formed(t));
}

} // verus!

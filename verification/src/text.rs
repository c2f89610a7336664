use vstd::prelude::*;

verus! {

// ---------------------------------------------------------------------------
// Decimal digits
// ---------------------------------------------------------------------------

/// The character for one decimal digit.
pub open spec fn digit_char(d: nat) -> char
    recommends
        d < 10,
{
    ((48 + d) as u8) as char
}

pub open spec fn is_digit(c: char) -> bool {
    48 <= c as int && c as int <= 57
}

pub open spec fn digit_val(c: char) -> nat
    recommends
        is_digit(c),
{
    (c as int - 48) as nat
}

pub open spec fn all_digits(s: Seq<char>) -> bool {
    forall|i: int| 0 <= i < s.len() ==> is_digit(#[trigger] s[i])
}

pub open spec fn pow10(w: nat) -> nat
    decreases w,
{
    if w == 0 {
        1
    } else {
        10 * pow10((w - 1) as nat)
    }
}

/// `n` written big-endian in exactly `width` decimal digits (mod `10^width`).
pub open spec fn digits_be(n: nat, width: nat) -> Seq<char>
    decreases width,
{
    if width == 0 {
        Seq::empty()
    } else {
        digits_be(n / 10, (width - 1) as nat).push(digit_char(n % 10))
    }
}

/// The numeric value of a big-endian digit sequence.
pub open spec fn dec_val(s: Seq<char>) -> nat
    decreases s.len(),
{
    if s.len() == 0 {
        0
    } else {
        dec_val(s.drop_last()) * 10 + digit_val(s.last())
    }
}

pub proof fn lemma_pow10_pos(w: nat)
    ensures
        pow10(w) >= 1,
    decreases w,
{
    if w > 0 {
        lemma_pow10_pos((w - 1) as nat);
    }
}

/// A fixed-width rendering holds only digits and its value is `n mod 10^width`.
pub proof fn lemma_digits_be_val(n: nat, width: nat)
    ensures
        digits_be(n, width).len() == width,
        all_digits(digits_be(n, width)),
        dec_val(digits_be(n, width)) == n % pow10(width),
    decreases width,
{
    if width == 0 {
        assert(n % 1 == 0) by (nonlinear_arith);
    } else {
        let w1 = (width - 1) as nat;
        lemma_digits_be_val(n / 10, w1);
        let s = digits_be(n, width);
        let p = digits_be(n / 10, w1);
        assert(s == p.push(digit_char(n % 10)));
        assert(s.drop_last() =~= p);
        assert(s.last() == digit_char(n % 10));
        assert(n % 10 < 10) by (nonlinear_arith);
        assert(digit_val(digit_char(n % 10)) == n % 10);
        assert(forall|i: int| 0 <= i < s.len() ==> is_digit(#[trigger] s[i]));
        // dec_val(s) == ((n/10) % pow10(width-1)) * 10 + n % 10 == n % pow10(width)
        assert(((n / 10) % pow10(w1)) * 10 + n % 10 == n % (10 * pow10(w1))) by {
            lemma_pow10_pos(w1);
            vstd::arithmetic::div_mod::lemma_mod_breakdown(n as int, 10, pow10(w1) as int);
        }
    }
}

/// Appends one digit character to a string.
fn push_digit(out: &mut String, d: u64)
    requires
        d < 10,
    ensures
        final(out)@ == old(out)@.push(digit_char(d as nat)),
{
    let lit: &str = if d == 0 {
        "0"
    } else if d == 1 {
        "1"
    } else if d == 2 {
        "2"
    } else if d == 3 {
        "3"
    } else if d == 4 {
        "4"
    } else if d == 5 {
        "5"
    } else if d == 6 {
        "6"
    } else if d == 7 {
        "7"
    } else if d == 8 {
        "8"
    } else {
        "9"
    };
    proof {
        reveal_strlit("0");
        reveal_strlit("1");
        reveal_strlit("2");
        reveal_strlit("3");
        reveal_strlit("4");
        reveal_strlit("5");
        reveal_strlit("6");
        reveal_strlit("7");
        reveal_strlit("8");
        reveal_strlit("9");
    }
    out.append(lit);
    proof {
        assert(out@ =~= old(out)@.push(digit_char(d as nat)));
    }
}

/// Appends `n` to `out` as exactly `width` big-endian decimal digits.
pub fn append_fixed_decimal(out: &mut String, n: u64, width: u8)
    ensures
        final(out)@ == old(out)@ + digits_be(n as nat, width as nat),
    decreases width,
{
    if width == 0 {
        proof {
            assert(out@ =~= old(out)@ + digits_be(n as nat, 0));
        }
    } else {
        append_fixed_decimal(out, n / 10, width - 1);
        push_digit(out, n % 10);
        proof {
            assert(out@ =~= old(out)@ + digits_be(n as nat, width as nat));
        }
    }
}

/// Reads the digit run `s[from..to]` as a number; `None` where a character is
/// not a digit or the value does not fit in `u64`.
#[verifier::rlimit(50)]
pub fn parse_fixed_decimal(s: &str, from: usize, to: usize) -> (r: Option<u64>)
    requires
        from <= to,
        to <= s@.len(),
        to - from <= 20,
    ensures
        ({
            let part = s@.subrange(from as int, to as int);
            if all_digits(part) && dec_val(part) <= u64::MAX as nat {
                r == Some((dec_val(part) as u64))
            } else {
                r is None
            }
        }),
{
    let ghost part = s@.subrange(from as int, to as int);
    let mut val: u128 = 0;
    let mut i: usize = from;
    while i < to
        invariant
            from <= i <= to,
            to <= s@.len(),
            to - from <= 20,
            part == s@.subrange(from as int, to as int),
            all_digits(s@.subrange(from as int, i as int)),
            val == dec_val(s@.subrange(from as int, i as int)),
            val < pow10((i - from) as nat),
        decreases to - i,
    {
        let c = s.get_char(i);
        let n: u32 = c as u32;
        proof {
            assert(part[i - from] == s@[i as int]);
        }
        if n < 48 || n > 57 {
            proof {
                assert(!is_digit(s@[i as int]));
                assert(!all_digits(part));
            }
            return None;
        }
        let d: u128 = (n - 48) as u128;
        proof {
            let pre = s@.subrange(from as int, i as int);
            let ext = s@.subrange(from as int, i as int + 1);
            assert(ext.drop_last() =~= pre);
            assert(ext.last() == s@[i as int]);
            lemma_pow10_pos((i - from) as nat);
            assert(val * 10 + d < pow10((i + 1 - from) as nat)) by (nonlinear_arith)
                requires
                    val < pow10((i - from) as nat),
                    d < 10,
                    pow10((i + 1 - from) as nat) == 10 * pow10((i - from) as nat),
            {}
            assert(pow10(20) == 100000000000000000000) by {
                reveal_with_fuel(pow10, 21);
            }
            assert(pow10((i + 1 - from) as nat) <= pow10(20)) by {
                lemma_pow10_monotone((i + 1 - from) as nat, 20);
            }
        }
        val = val * 10 + d;
        i = i + 1;
    }
    proof {
        assert(s@.subrange(from as int, to as int) =~= part);
    }
    if val > u64::MAX as u128 {
        None
    } else {
        Some(val as u64)
    }
}

pub proof fn lemma_pow10_monotone(a: nat, b: nat)
    requires
        a <= b,
    ensures
        pow10(a) <= pow10(b),
    decreases b,
{
    if a < b {
        lemma_pow10_monotone(a, (b - 1) as nat);
        lemma_pow10_pos((b - 1) as nat);
    }
}

// ---------------------------------------------------------------------------
// Character folding and case-insensitive containment
// ---------------------------------------------------------------------------

/// ASCII uppercase letters folded to lowercase; all else unchanged.
pub open spec fn lower_char(c: char) -> char {
    if 65 <= c as int && c as int <= 90 {
        ((c as u8) + 32) as char
    } else {
        c
    }
}

/// The needle occurs at offset `off` of the haystack, ignoring ASCII case.
pub open spec fn matches_at(h: Seq<char>, n: Seq<char>, off: int) -> bool {
    forall|j: int| 0 <= j < n.len() ==> lower_char(h[off + j]) == lower_char(#[trigger] n[j])
}

/// The needle occurs somewhere in the haystack, ignoring ASCII case.
pub open spec fn contains_ci(h: Seq<char>, n: Seq<char>) -> bool {
    exists|off: int| 0 <= off && off + n.len() <= h.len() && matches_at(h, n, off)
}

/// Folds one character to lowercase.
pub fn lower_char_exec(c: char) -> (r: char)
    ensures
        r == lower_char(c),
{
    let n: u32 = c as u32;
    if 65 <= n && n <= 90 {
        ((n as u8) + 32) as char
    } else {
        c
    }
}

/// Character-for-character string equality.
pub fn str_eq(a: &str, b: &str) -> (r: bool)
    ensures
        r == (a@ == b@),
{
    let al = a.unicode_len();
    let bl = b.unicode_len();
    if al != bl {
        return false;
    }
    let mut i: usize = 0;
    while i < al
        invariant
            i <= al,
            al == a@.len(),
            al == b@.len(),
            forall|j: int| 0 <= j < i ==> a@[j] == b@[j],
        decreases al - i,
    {
        if a.get_char(i) != b.get_char(i) {
            return false;
        }
        i = i + 1;
    }
    proof {
        assert(a@ =~= b@);
    }
    true
}

/// Case-insensitive substring test.
pub fn str_contains_ci(h: &str, n: &str) -> (r: bool)
    ensures
        r == contains_ci(h@, n@),
{
    let hl = h.unicode_len();
    let nl = n.unicode_len();
    if nl > hl {
        proof {
            assert(!contains_ci(h@, n@));
        }
        return false;
    }
    let mut off: usize = 0;
    while off <= hl - nl
        invariant
            nl <= hl,
            hl == h@.len(),
            nl == n@.len(),
            forall|o: int| 0 <= o < off ==> !matches_at(h@, n@, o),
        decreases hl - nl - off + 1,
    {
        let mut j: usize = 0;
        let mut ok: bool = true;
        while j < nl
            invariant
                nl == n@.len(),
                hl == h@.len(),
                off + nl <= hl,
                j <= nl,
                ok ==> forall|jj: int|
                    0 <= jj < j ==> lower_char(h@[off + jj]) == lower_char(#[trigger] n@[jj]),
                !ok ==> !matches_at(h@, n@, off as int),
            decreases nl - j,
        {
            let hc = lower_char_exec(h.get_char(off + j));
            let nc = lower_char_exec(n.get_char(j));
            if hc != nc {
                proof {
                    assert(lower_char(h@[off + j]) != lower_char(n@[j as int]));
                    assert(!matches_at(h@, n@, off as int));
                }
                ok = false;
                j = nl;
            } else {
                j = j + 1;
            }
        }
        if ok {
            proof {
                assert(matches_at(h@, n@, off as int));
            }
            return true;
        }
        off = off + 1;
    }
    proof {
        assert(forall|o: int| 0 <= o && o + n@.len() <= h@.len() ==> !matches_at(h@, n@, o));
    }
    false
}

// ---------------------------------------------------------------------------
// Stable hashing of character data
// ---------------------------------------------------------------------------

/// The 64-bit fold used to derive stable identifiers: a
/// multiply-and-xor accumulation over the characters, fixed for all time so
/// that identifiers never move between runs.
pub open spec fn fold_hash(s: Seq<char>) -> u64
    decreases s.len(),
{
    if s.len() == 0 {
        14695981039346656037u64
    } else {
        vstd::wrapping::u64_specs::wrapping_mul(
            fold_hash(s.drop_last()) ^ (s.last() as u64),
            1099511628211u64,
        )
    }
}

/// Computes [`fold_hash`] of a string.
pub fn hash_chars(s: &str) -> (r: u64)
    ensures
        r == fold_hash(s@),
{
    let len = s.unicode_len();
    let mut h: u64 = 14695981039346656037u64;
    let mut i: usize = 0;
    while i < len
        invariant
            i <= len,
            len == s@.len(),
            h == fold_hash(s@.subrange(0, i as int)),
        decreases len - i,
    {
        let c = s.get_char(i);
        proof {
            let pre = s@.subrange(0, i as int);
            let ext = s@.subrange(0, i as int + 1);
            assert(ext.drop_last() =~= pre);
            assert(ext.last() == s@[i as int]);
        }
        h = (h ^ (c as u64)).wrapping_mul(1099511628211u64);
        i = i + 1;
    }
    proof {
        assert(s@.subrange(0, s@.len() as int) =~= s@);
    }
    h
}

} // verus!

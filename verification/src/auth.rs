use vstd::prelude::*;
use crate::errors::AuthError;
use crate::models::{LoginResponse, User};
use crate::session::{upsert, Session, SessionCache, SessionV};
use crate::text::{append_fixed_decimal, digits_be, fold_hash, lemma_digits_be_val};
use crate::token::{expiry_of, issue, sig_of, token_chars};

verus! {

/// What the remote mail server answered to a protocol-level login attempt.
/// A successful login is the only acceptable proof of identity; the password
/// itself goes straight to that attempt and never enters this crate.
#[derive(Clone, Copy, Debug, PartialEq, Eq, Structural)]
pub enum RemoteAuthOutcome {
    /// The server accepted the credentials.
    Accepted,
    /// The server rejected the credentials (wrong password and locked
    /// account deliberately look alike).
    Rejected,
    /// Connection or TLS failure.
    Unreachable,
    /// The bounded connection timeout elapsed.
    TimedOut,
}

/// The stable identifier minted for a mailbox address: a fixed-width decimal
/// rendering of the address's [`fold_hash`]. Deterministic, so the same
/// address always maps to the same identity.
pub open spec fn identity_chars(addr: Seq<char>) -> Seq<char> {
    digits_be(fold_hash(addr) as nat, 20)
}

/// The index of the first `'@'`, or the length where there is none.
pub open spec fn at_pos(s: Seq<char>) -> int {
    choose|i: int|
        0 <= i <= s.len() && (forall|j: int| 0 <= j < i ==> s[j] != '@') && (i == s.len() || s[i]
            == '@')
}

/// The display name shown for an address: everything before the first `'@'`.
pub open spec fn local_name(s: Seq<char>) -> Seq<char> {
    s.subrange(0, at_pos(s))
}

proof fn lemma_at_pos_unique(s: Seq<char>, i: int)
    requires
        0 <= i <= s.len(),
        forall|j: int| 0 <= j < i ==> s[j] != '@',
        i == s.len() || s[i] == '@',
    ensures
        at_pos(s) == i,
{
    assert(0 <= i <= s.len() && (forall|j: int| 0 <= j < i ==> s[j] != '@') && (i == s.len()
        || s[i] == '@'));
    let k = at_pos(s);
    if k < i {
        assert(s[k] != '@');
    }
    if i < k {
        assert(s[i] != '@');
    }
}

/// Renders [`identity_chars`] of an address.
pub fn derive_identity_id(mailbox_address: &str) -> (r: String)
    ensures
        r@ == identity_chars(mailbox_address@),
{
    let h = crate::text::hash_chars(mailbox_address);
    let mut out = String::new();
    append_fixed_decimal(&mut out, h, 20);
    proof {
        assert(out@ =~= identity_chars(mailbox_address@));
    }
    out
}

/// Extracts the display name: the address up to the first `'@'`.
pub fn display_name_of(mailbox_address: &str) -> (r: String)
    ensures
        r@ == local_name(mailbox_address@),
{
    let len = mailbox_address.unicode_len();
    let mut i: usize = 0;
    while i < len
        invariant
            i <= len,
            len == mailbox_address@.len(),
            forall|j: int| 0 <= j < i ==> mailbox_address@[j] != '@',
        decreases len - i,
    {
        if mailbox_address.get_char(i) == '@' {
            proof {
                lemma_at_pos_unique(mailbox_address@, i as int);
            }
            let part = mailbox_address.substring_char(0, i);
            return part.to_owned();
        }
        i = i + 1;
    }
    proof {
        lemma_at_pos_unique(mailbox_address@, len as int);
        assert(mailbox_address@.subrange(0, len as int) =~= mailbox_address@);
    }
    mailbox_address.to_owned()
}

/// The credential bridge: turns the remote server's verdict on a login
/// attempt into an identity, an issued token and a recorded session.
///
/// Only a protocol-level acceptance yields a session; every failure is
/// mapped to the error taxonomy and leaves the cache untouched. The
/// identity's `id` is derived deterministically from the mailbox address,
/// never regenerated at random.
pub fn authenticate(
    cache: &mut SessionCache,
    secret: &str,
    mailbox_address: &str,
    outcome: RemoteAuthOutcome,
    now: u64,
) -> (r: Result<LoginResponse, AuthError>)
    requires
        old(cache).wf(),
    ensures
        final(cache).wf(),
        outcome == RemoteAuthOutcome::Rejected ==> r == Err::<LoginResponse, AuthError>(
            AuthError::InvalidCredentials,
        ) && final(cache)@ == old(cache)@,
        outcome == RemoteAuthOutcome::Unreachable ==> r == Err::<LoginResponse, AuthError>(
            AuthError::Unreachable,
        ) && final(cache)@ == old(cache)@,
        outcome == RemoteAuthOutcome::TimedOut ==> r == Err::<LoginResponse, AuthError>(
            AuthError::Timeout,
        ) && final(cache)@ == old(cache)@,
        outcome == RemoteAuthOutcome::Accepted ==> r is Ok && ({
            let resp = r->Ok_0;
            let tok = token_chars(
                fold_hash(mailbox_address@),
                expiry_of(now),
                sig_of(secret@, fold_hash(mailbox_address@), expiry_of(now)),
            );
            &&& resp.token@ == tok
            &&& resp.user.id@ == identity_chars(mailbox_address@)
            &&& resp.user.email@ == mailbox_address@
            &&& resp.user.name@ == local_name(mailbox_address@)
            &&& final(cache)@ == upsert(
                old(cache)@,
                (SessionV {
                    token: tok,
                    identity_id: identity_chars(mailbox_address@),
                    issued_at: now,
                    expires_at: expiry_of(now),
                    revoked: false,
                }),
            )
        }),
{
    match outcome {
        RemoteAuthOutcome::Rejected => Err(AuthError::InvalidCredentials),
        RemoteAuthOutcome::Unreachable => Err(AuthError::Unreachable),
        RemoteAuthOutcome::TimedOut => Err(AuthError::Timeout),
        RemoteAuthOutcome::Accepted => {
            let h = crate::text::hash_chars(mailbox_address);
            let token = issue(secret, h, now);
            let id = derive_identity_id(mailbox_address);
            let name = display_name_of(mailbox_address);
            let exp: u64 = if now > u64::MAX - crate::token::TOKEN_TTL_SECONDS {
                u64::MAX
            } else {
                now + crate::token::TOKEN_TTL_SECONDS
            };
            let session = Session {
                token: token.clone(),
                identity_id: id.clone(),
                issued_at: now,
                expires_at: exp,
                revoked: false,
            };
            cache.record(session);
            let user = User { id, email: mailbox_address.to_owned(), name };
            Ok(LoginResponse { token, user })
        },
    }
}

/// Law: identity is stable — whatever two moments (even with a logout in
/// between) an address authenticates at, the minted identifier is the same,
/// because it is a function of the address alone.
pub proof fn lemma_identity_stable(addr: Seq<char>, id1: Seq<char>, id2: Seq<char>)
    requires
        id1 == identity_chars(addr),
        id2 == identity_chars(addr),
    ensures
        id1 == id2,
{
}

} // verus!

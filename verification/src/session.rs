use vstd::prelude::*;

verus! {

/// One recorded session: the issued token, the identity it authorizes, its
/// validity window, and whether it has been revoked by logout.
pub struct Session {
    pub token: String,
    pub identity_id: String,
    pub issued_at: u64,
    pub expires_at: u64,
    pub revoked: bool,
}

/// Mathematical image of a [`Session`].
#[verifier::ext_equal]
pub ghost struct SessionV {
    pub token: Seq<char>,
    pub identity_id: Seq<char>,
    pub issued_at: u64,
    pub expires_at: u64,
    pub revoked: bool,
}

impl View for Session {
    type V = SessionV;

    open spec fn view(&self) -> SessionV {
        SessionV {
            token: self.token@,
            identity_id: self.identity_id@,
            issued_at: self.issued_at,
            expires_at: self.expires_at,
            revoked: self.revoked,
        }
    }
}

/// Some record carries this token.
pub open spec fn has_token(s: Seq<SessionV>, t: Seq<char>) -> bool {
    exists|i: int| 0 <= i < s.len() && (#[trigger] s[i]).token == t
}

/// The record carrying this token (meaningful under [`SessionCache::wf`],
/// where at most one does).
pub open spec fn token_index(s: Seq<SessionV>, t: Seq<char>) -> int {
    choose|i: int| 0 <= i < s.len() && (#[trigger] s[i]).token == t
}

/// Insert-or-replace by token.
pub open spec fn upsert(s: Seq<SessionV>, sv: SessionV) -> Seq<SessionV> {
    if has_token(s, sv.token) {
        s.update(token_index(s, sv.token), sv)
    } else {
        s.push(sv)
    }
}

/// Every record carrying the token marked revoked; all else untouched.
pub open spec fn revoke_all(s: Seq<SessionV>, t: Seq<char>) -> Seq<SessionV> {
    s.map(
        |i: int, e: SessionV|
            if e.token == t {
                SessionV { revoked: true, ..e }
            } else {
                e
            },
    )
}

/// The token authorizes work at `now`: recorded, not revoked, not expired.
/// Both expiry and revocation are checked, so no result computed for a
/// session may be served after its logout.
pub open spec fn live(s: Seq<SessionV>, t: Seq<char>, now: u64) -> bool {
    exists|i: int|
        0 <= i < s.len() && (#[trigger] s[i]).token == t && !s[i].revoked && now < s[i].expires_at
}

/// The shared store of active sessions, single source of truth for "is this
/// session still valid".
pub struct SessionCache {
    sessions: Vec<Session>,
}

impl View for SessionCache {
    type V = Seq<SessionV>;

    closed spec fn view(&self) -> Seq<SessionV> {
        self.sessions@.map(|i: int, e: Session| e@)
    }
}

impl SessionCache {
    /// Tokens are unique: at most one record per token.
    pub open spec fn wf(&self) -> bool {
        forall|i: int, j: int|
            0 <= i < j < self@.len() ==> (#[trigger] self@[i]).token != (#[trigger] self@[j]).token
    }

    /// An empty cache.
    pub fn new() -> (r: SessionCache)
        ensures
            r@ =~= Seq::<SessionV>::empty(),
            r.wf(),
    {
        SessionCache { sessions: Vec::new() }
    }

    /// The position of the record carrying `token`, if any.
    fn find(&self, token: &str) -> (r: Option<usize>)
        ensures
            match r {
                Some(i) => i < self@.len() && self@[i as int].token == token@,
                None => !has_token(self@, token@),
            },
    {
        let mut i: usize = 0;
        while i < self.sessions.len()
            invariant
                i <= self.sessions.len(),
                forall|j: int| 0 <= j < i ==> (#[trigger] self@[j]).token != token@,
            decreases self.sessions.len() - i,
        {
            if crate::text::str_eq(self.sessions[i].token.as_str(), token) {
                return Some(i);
            }
            i = i + 1;
        }
        None
    }

    /// Records a session, replacing any record already carrying its token
    /// (re-authentication within one expiry window re-issues the same token).
    pub fn record(&mut self, s: Session)
        requires
            old(self).wf(),
        ensures
            final(self).wf(),
            final(self)@ == upsert(old(self)@, s@),
    {
        let ghost sv = s@;
        let found = self.find(s.token.as_str());
        match found {
            Some(i) => {
                self.sessions.set(i, s);
                proof {
                    let k = token_index(old(self)@, sv.token);
                    assert(0 <= k < old(self)@.len() && old(self)@[k].token == sv.token);
                    assert(k == i as int);
                    assert(self@ =~= upsert(old(self)@, sv));
                }
            },
            None => {
                self.sessions.push(s);
                proof {
                    assert(self@ =~= old(self)@.push(sv));
                }
            },
        }
        proof {
            assert forall|a: int, b: int|
                0 <= a < b < self@.len() implies (#[trigger] self@[a]).token
                != (#[trigger] self@[b]).token by {
                assert(old(self).wf());
            }
        }
    }

    /// Marks the session for `token` revoked. Idempotent: it never errors,
    /// on an unknown, expired or already-revoked token it simply leaves an
    /// unauthorized cache behind.
    pub fn logout(&mut self, token: &str)
        requires
            old(self).wf(),
        ensures
            final(self).wf(),
            final(self)@ == revoke_all(old(self)@, token@),
            forall|now: u64| !live(final(self)@, token@, now),
    {
        let found = self.find(token);
        match found {
            Some(i) => {
                let old_s = &self.sessions[i];
                let replacement = Session {
                    token: old_s.token.clone(),
                    identity_id: old_s.identity_id.clone(),
                    issued_at: old_s.issued_at,
                    expires_at: old_s.expires_at,
                    revoked: true,
                };
                self.sessions.set(i, replacement);
                proof {
                    assert forall|j: int| 0 <= j < self@.len() implies self@[j] == revoke_all(
                        old(self)@,
                        token@,
                    )[j] by {
                        if j != i as int {
                            assert(old(self)@[j].token != token@) by {
                                assert(old(self).wf());
                                assert(old(self)@[i as int].token == token@);
                            }
                        }
                    }
                    assert(self@ =~= revoke_all(old(self)@, token@));
                }
            },
            None => {
                proof {
                    assert(self@ =~= revoke_all(old(self)@, token@));
                }
            },
        }
        proof {
            assert(forall|j: int|
                0 <= j < self@.len() ==> (#[trigger] self@[j]).token == old(self)@[j].token);
            assert forall|now: u64| !live(self@, token@, now) by {
                assert(forall|j: int|
                    0 <= j < self@.len() && (#[trigger] self@[j]).token == token@
                        ==> self@[j].revoked);
            }
        }
    }

    /// Whether `token` authorizes work at `now`.
    pub fn is_live(&self, token: &str, now: u64) -> (r: bool)
        requires
            self.wf(),
        ensures
            r == live(self@, token@, now),
    {
        match self.find(token) {
            Some(i) => {
                let s = &self.sessions[i];
                let r = !s.revoked && now < s.expires_at;
                proof {
                    if !r {
                        assert forall|j: int|
                            0 <= j < self@.len() && (#[trigger] self@[j]).token == token@
                                implies !(!self@[j].revoked && now < self@[j].expires_at) by {
                            if j != i as int {
                                assert(self@[j].token != self@[i as int].token);
                            }
                        }
                    }
                }
                r
            },
            None => false,
        }
    }

    /// The identity a live token authorizes; `None` for a token that is
    /// unknown, revoked or expired.
    pub fn identity_of(&self, token: &str, now: u64) -> (r: Option<String>)
        requires
            self.wf(),
        ensures
            (r is Some) == live(self@, token@, now),
            r is Some ==> r->Some_0@ == self@[token_index(self@, token@)].identity_id,
    {
        match self.find(token) {
            Some(i) => {
                let s = &self.sessions[i];
                if !s.revoked && now < s.expires_at {
                    proof {
                        let k = token_index(self@, token@);
                        assert(0 <= k < self@.len() && self@[k].token == token@);
                        assert(k == i as int);
                    }
                    Some(s.identity_id.clone())
                } else {
                    proof {
                        assert forall|j: int|
                            0 <= j < self@.len() && (#[trigger] self@[j]).token == token@
                                implies !(!self@[j].revoked && now < self@[j].expires_at) by {
                            if j != i as int {
                                assert(self@[j].token != self@[i as int].token);
                            }
                        }
                    }
                    None
                }
            },
            None => None,
        }
    }
}

/// Law: logout is idempotent — revoking twice is the same cache as revoking
/// once, and after the first call every record carrying the token is revoked.
pub proof fn lemma_logout_idempotent(s: Seq<SessionV>, t: Seq<char>)
    ensures
        revoke_all(revoke_all(s, t), t) == revoke_all(s, t),
        forall|i: int|
            0 <= i < s.len() && (#[trigger] s[i]).token == t ==> revoke_all(s, t)[i].revoked,
        forall|now: u64| !live(revoke_all(s, t), t, now),
{
    assert(revoke_all(revoke_all(s, t), t) =~= revoke_all(s, t));
    assert forall|now: u64| !live(revoke_all(s, t), t, now) by {
        assert(forall|i: int|
            0 <= i < s.len() && (#[trigger] revoke_all(s, t)[i]).token == t
                ==> revoke_all(s, t)[i].revoked);
    }
}

} // verus!

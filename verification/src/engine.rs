use vstd::prelude::*;
use crate::errors::SyncError;
use crate::models::Email;
use crate::models::EmailV;
use crate::sync::{
    emails_of, has_id, idx_of_id, merge_spec, pendings_of, set_field,
    FlagField, FolderCursor, FolderState, FolderStateV, PendingChange, PendingChangeV,
    FRESHNESS_WINDOW_SECONDS,
};
use crate::text::{contains_ci, str_contains_ci, str_eq};

verus! {

/// The views of a list of folder states.
pub open spec fn states_of(v: Seq<FolderState>) -> Seq<FolderStateV> {
    v.map(|i: int, s: FolderState| s@)
}

/// `a + b`, saturating at the top of the range.
pub open spec fn sat_add(a: u64, b: u64) -> u64 {
    if a + b > u64::MAX {
        u64::MAX
    } else {
        (a + b) as u64
    }
}

/// The folder state is the one for this (identity, folder) pair.
pub open spec fn pair_matches(st: FolderStateV, ident: Seq<char>, folder: Seq<char>) -> bool {
    st.identity_id == ident && st.folder_name == folder
}

pub open spec fn has_pair(ss: Seq<FolderStateV>, ident: Seq<char>, folder: Seq<char>) -> bool {
    exists|k: int| 0 <= k < ss.len() && pair_matches(#[trigger] ss[k], ident, folder)
}

/// The first state for the pair (unique by minimality).
pub open spec fn idx_of_pair(ss: Seq<FolderStateV>, ident: Seq<char>, folder: Seq<char>) -> int {
    choose|k: int|
        0 <= k < ss.len() && pair_matches(#[trigger] ss[k], ident, folder) && (forall|j: int|
            0 <= j < k ==> !pair_matches(ss[j], ident, folder))
}

/// The cached listing is young enough to serve without a round trip.
pub open spec fn fresh_at(st: FolderStateV, now: u64) -> bool {
    st.synced_once && now < sat_add(st.last_synced_at, FRESHNESS_WINDOW_SECONDS)
}

/// What a listing request decides, as a function of the folder state alone.
#[derive(Clone, Copy, Debug, PartialEq, Eq, Structural)]
pub enum DecisionKind {
    /// Serve the current snapshot; no remote work.
    ServeSnap,
    /// Start the one remote fetch.
    StartFetch,
    /// A fetch is already in flight; wait for its result.
    Wait,
}

/// The listing decision: a running sync admits no second fetch; a fresh
/// unforced listing is served locally; anything else starts a fetch.
pub open spec fn decide_sync(st: FolderStateV, force: bool, now: u64) -> DecisionKind {
    if st.in_flight {
        DecisionKind::Wait
    } else if !force && fresh_at(st, now) {
        DecisionKind::ServeSnap
    } else {
        DecisionKind::StartFetch
    }
}

/// The state as it is recorded when its fetch starts.
pub open spec fn started(st: FolderStateV) -> FolderStateV {
    FolderStateV { in_flight: true, ..st }
}

/// The state after a successful fetch is reconciled at `now`.
pub open spec fn synced(st: FolderStateV, fetched: Seq<EmailV>, uid_high: u64, now: u64)
    -> FolderStateV {
    FolderStateV {
        last_synced_at: now,
        uid_high: if uid_high > st.uid_high {
            uid_high
        } else {
            st.uid_high
        },
        synced_once: true,
        in_flight: false,
        snapshot: merge_spec(st.snapshot, fetched, st.pending),
        ..st
    }
}

/// A blank state for a pair never synced before.
pub open spec fn blank_state(ident: Seq<char>, folder: Seq<char>) -> FolderStateV {
    FolderStateV {
        identity_id: ident,
        folder_name: folder,
        last_synced_at: 0,
        uid_high: 0,
        synced_once: false,
        in_flight: false,
        snapshot: Seq::empty(),
        pending: Seq::empty(),
    }
}

/// What a listing request returns to its caller.
pub enum SyncDecision {
    /// The snapshot, newest first.
    Serve(Vec<Email>),
    /// Fetch messages with remote UIDs above this mark, then hand the result
    /// back through `apply_fetch_success` or `apply_fetch_failure`.
    Fetch(u64),
    /// Another request's fetch for this pair is in flight.
    Busy,
}

/// What the remote side reported when a fetch failed.
#[derive(Clone, Copy, Debug, PartialEq, Eq, Structural)]
pub enum RemoteFetchError {
    /// Transient: the connection dropped.
    ConnectionReset,
    /// Transient: the bounded timeout elapsed.
    TimedOut,
    /// Permanent: no such folder on the server.
    NoSuchFolder,
}

/// What to do about a failed fetch.
#[derive(Clone, Copy, Debug, PartialEq, Eq, Structural)]
pub enum FetchErrorAction {
    /// Try the fetch once more, after backoff.
    RetryOnce,
    /// Give up and surface this error.
    Surface(SyncError),
}

/// Transient errors are retried exactly once; a missing folder never is.
pub fn fetch_error_action(err: RemoteFetchError, prior_attempts: u8) -> (r: FetchErrorAction)
    ensures
        err == RemoteFetchError::NoSuchFolder ==> r == FetchErrorAction::Surface(
            SyncError::NoSuchFolder,
        ),
        err != RemoteFetchError::NoSuchFolder && prior_attempts == 0 ==> r
            == FetchErrorAction::RetryOnce,
        err != RemoteFetchError::NoSuchFolder && prior_attempts > 0 ==> r
            == FetchErrorAction::Surface(SyncError::RemoteUnavailable),
{
    match err {
        RemoteFetchError::NoSuchFolder => FetchErrorAction::Surface(SyncError::NoSuchFolder),
        _ => {
            if prior_attempts == 0 {
                FetchErrorAction::RetryOnce
            } else {
                FetchErrorAction::Surface(SyncError::RemoteUnavailable)
            }
        },
    }
}

/// Copies a snapshot, preserving its view.
fn clone_emails(v: &Vec<Email>) -> (r: Vec<Email>)
    ensures
        emails_of(r@) == emails_of(v@),
{
    let mut r: Vec<Email> = Vec::new();
    let mut i: usize = 0;
    while i < v.len()
        invariant
            i <= v@.len(),
            emails_of(r@) =~= emails_of(v@).take(i as int),
        decreases v@.len() - i,
    {
        let ghost prev = r@;
        let d = v[i].duplicate();
        r.push(d);
        proof {
            assert(emails_of(prev).len() == prev.len());
            assert(prev.len() == i as int);
            assert(r@ == prev.push(d));
            assert forall|j: int| 0 <= j < r@.len() implies emails_of(r@)[j] == emails_of(
                v@,
            ).take(i as int + 1)[j] by {
                if j < i {
                    assert(r@[j] == prev[j]);
                    assert(emails_of(prev)[j] == emails_of(v@).take(i as int)[j]);
                } else {
                    assert(r@[j] == d);
                }
            }
            assert(emails_of(r@) =~= emails_of(v@).take(i as int + 1));
        }
        i = i + 1;
    }
    proof {
        assert(emails_of(v@).take(v@.len() as int) =~= emails_of(v@));
    }
    r
}

/// The locally queryable, eventually consistent view of remote folder state:
/// one [`FolderState`] per (identity, folder) pair ever listed.
pub struct SyncEngine {
    folders: Vec<FolderState>,
}

impl View for SyncEngine {
    type V = Seq<FolderStateV>;

    closed spec fn view(&self) -> Seq<FolderStateV> {
        states_of(self.folders@)
    }
}

impl SyncEngine {
    /// An engine with no folder state yet.
    pub fn new() -> (r: SyncEngine)
        ensures
            r@ =~= Seq::<FolderStateV>::empty(),
    {
        SyncEngine { folders: Vec::new() }
    }

    /// The position of the state for this pair, if any.
    fn find_pair(&self, identity_id: &str, folder: &str) -> (r: Option<usize>)
        ensures
            match r {
                Some(k) => k < self@.len() && pair_matches(self@[k as int], identity_id@, folder@)
                    && (forall|j: int|
                        0 <= j < k ==> !pair_matches(#[trigger] self@[j], identity_id@, folder@))
                    && idx_of_pair(self@, identity_id@, folder@) == k,
                None => !has_pair(self@, identity_id@, folder@),
            },
    {
        let mut k: usize = 0;
        while k < self.folders.len()
            invariant
                k <= self@.len(),
                self@ == states_of(self.folders@),
                forall|j: int| 0 <= j < k ==> !pair_matches(#[trigger] self@[j], identity_id@, folder@),
            decreases self@.len() - k,
        {
            let st = &self.folders[k];
            if str_eq(st.cursor.identity_id.as_str(), identity_id) && str_eq(
                st.cursor.folder_name.as_str(),
                folder,
            ) {
                proof {
                    assert(0 <= (k as int) < self@.len() && pair_matches(
                        self@[k as int],
                        identity_id@,
                        folder@,
                    ) && (forall|j: int|
                        0 <= j < k as int ==> !pair_matches(self@[j], identity_id@, folder@)));
                    let c = idx_of_pair(self@, identity_id@, folder@);
                    assert(0 <= c < self@.len() && pair_matches(self@[c], identity_id@, folder@)
                        && (forall|j: int|
                        0 <= j < c ==> !pair_matches(self@[j], identity_id@, folder@)));
                    if c < k as int {
                        assert(!pair_matches(self@[c], identity_id@, folder@));
                    }
                    if (k as int) < c {
                        assert(!pair_matches(self@[k as int], identity_id@, folder@));
                    }
                }
                return Some(k);
            }
            k = k + 1;
        }
        None
    }

    /// The listing operation: serves a fresh snapshot, starts the single
    /// remote fetch, or reports a fetch already in flight. Creating the
    /// state for a never-seen pair starts a full fetch (mark 0).
    pub fn list_folder(&mut self, identity_id: &str, folder: &str, force: bool, now: u64) -> (r:
        SyncDecision)
        ensures
            ({
                let ss = old(self)@;
                if !has_pair(ss, identity_id@, folder@) {
                    &&& final(self)@ == ss.push(started(blank_state(identity_id@, folder@)))
                    &&& r matches SyncDecision::Fetch(m) && m == 0
                } else {
                    let k = idx_of_pair(ss, identity_id@, folder@);
                    let st = ss[k];
                    match decide_sync(st, force, now) {
                        DecisionKind::Wait => final(self)@ == ss && (r is Busy),
                        DecisionKind::ServeSnap => final(self)@ == ss && (r matches
                            SyncDecision::Serve(v) && emails_of(v@) == st.snapshot),
                        DecisionKind::StartFetch => final(self)@ == ss.update(k, started(st)) && (
                        r matches SyncDecision::Fetch(m) && m == st.uid_high),
                    }
                }
            }),
    {
        match self.find_pair(identity_id, folder) {
            None => {
                let st = FolderState {
                    cursor: FolderCursor {
                        identity_id: identity_id.to_owned(),
                        folder_name: folder.to_owned(),
                        last_synced_at: 0,
                        remote_uid_high_water_mark: 0,
                    },
                    synced_once: false,
                    in_flight: true,
                    snapshot: Vec::new(),
                    pending: Vec::new(),
                };
                proof {
                    assert(st@ =~~= started(blank_state(identity_id@, folder@)));
                }
                self.folders.push(st);
                proof {
                    assert(self@ =~= old(self)@.push(started(blank_state(identity_id@, folder@))));
                }
                SyncDecision::Fetch(0)
            },
            Some(k) => {
                let ghost ss = self@;
                let ghost stv = self@[k as int];
                if self.folders[k].in_flight {
                    SyncDecision::Busy
                } else {
                    let st = &self.folders[k];
                    let limit: u64 = if st.cursor.last_synced_at > u64::MAX
                        - FRESHNESS_WINDOW_SECONDS {
                        u64::MAX
                    } else {
                        st.cursor.last_synced_at + FRESHNESS_WINDOW_SECONDS
                    };
                    if !force && st.synced_once && now < limit {
                        proof {
                            assert(decide_sync(stv, force, now) == DecisionKind::ServeSnap);
                        }
                        let snap = clone_emails(&st.snapshot);
                        SyncDecision::Serve(snap)
                    } else {
                        proof {
                            assert(decide_sync(stv, force, now) == DecisionKind::StartFetch);
                        }
                        let mark = self.folders[k].cursor.remote_uid_high_water_mark;
                        let mut taken = self.folders.remove(k);
                        taken.in_flight = true;
                        proof {
                            assert(taken@ =~~= started(stv));
                        }
                        self.folders.insert(k, taken);
                        proof {
                            assert(self@ =~= ss.update(k as int, started(stv)));
                        }
                        SyncDecision::Fetch(mark)
                    }
                }
            },
        }
    }

    /// Reconciles a fetched listing into the pair's snapshot: new messages
    /// in front, server flags winning except for unconfirmed local
    /// overrides, cursor advanced, the in-flight mark cleared.
    pub fn apply_fetch_success(
        &mut self,
        identity_id: &str,
        folder: &str,
        fetched: &Vec<Email>,
        uid_high: u64,
        now: u64,
    )
        ensures
            ({
                let ss = old(self)@;
                if has_pair(ss, identity_id@, folder@) {
                    let k = idx_of_pair(ss, identity_id@, folder@);
                    final(self)@ == ss.update(k, synced(ss[k], emails_of(fetched@), uid_high, now))
                } else {
                    final(self)@ == ss
                }
            }),
    {
        match self.find_pair(identity_id, folder) {
            None => {},
            Some(k) => {
                let ghost ss = self@;
                let ghost stv = self@[k as int];
                let mut taken = self.folders.remove(k);
                let merged = crate::sync::merge_snapshots(&taken.snapshot, fetched, &taken.pending);
                taken.snapshot = merged;
                taken.cursor.last_synced_at = now;
                if uid_high > taken.cursor.remote_uid_high_water_mark {
                    taken.cursor.remote_uid_high_water_mark = uid_high;
                }
                taken.synced_once = true;
                taken.in_flight = false;
                proof {
                    assert(taken@ =~~= synced(stv, emails_of(fetched@), uid_high, now));
                }
                self.folders.insert(k, taken);
                proof {
                    assert(self@ =~= ss.update(
                        k as int,
                        synced(stv, emails_of(fetched@), uid_high, now),
                    ));
                }
            },
        }
    }

    /// A fetch that failed for good: the in-flight mark is cleared and the
    /// last known-good snapshot stays untouched, to be served stale rather
    /// than lost.
    pub fn apply_fetch_failure(&mut self, identity_id: &str, folder: &str)
        ensures
            ({
                let ss = old(self)@;
                if has_pair(ss, identity_id@, folder@) {
                    let k = idx_of_pair(ss, identity_id@, folder@);
                    final(self)@ == ss.update(
                        k,
                        (FolderStateV { in_flight: false, ..ss[k] }),
                    )
                } else {
                    final(self)@ == ss
                }
            }),
    {
        match self.find_pair(identity_id, folder) {
            None => {},
            Some(k) => {
                let ghost ss = self@;
                let ghost stv = self@[k as int];
                let mut taken = self.folders.remove(k);
                taken.in_flight = false;
                proof {
                    assert(taken@ =~~= (FolderStateV { in_flight: false, ..stv }));
                }
                self.folders.insert(k, taken);
                proof {
                    assert(self@ =~= ss.update(k as int, (FolderStateV { in_flight: false, ..stv })));
                }
            },
        }
    }
}

/// Law: at most one sync is in flight per (identity, folder) — while one
/// runs, every further listing request, forced or not, waits instead of
/// starting a second fetch, so N concurrent requests trigger exactly one.
pub proof fn lemma_at_most_one_in_flight(st: FolderStateV, force: bool, now: u64)
    requires
        st.in_flight,
    ensures
        decide_sync(st, force, now) == DecisionKind::Wait,
{
}

/// Law: starting a fetch leaves a state on which any further request waits.
pub proof fn lemma_no_second_fetch(st: FolderStateV, force1: bool, force2: bool, now1: u64, now2: u64)
    requires
        decide_sync(st, force1, now1) == DecisionKind::StartFetch,
    ensures
        decide_sync(started(st), force2, now2) == DecisionKind::Wait,
{
}

/// Law: the freshness cache holds — an unforced listing served from the
/// snapshot leaves the state unchanged, so a second unforced listing still
/// inside the freshness window is served from the very same snapshot, with
/// no remote fetch in between.
pub proof fn lemma_freshness_cache(st: FolderStateV, now1: u64, now2: u64)
    requires
        decide_sync(st, false, now1) == DecisionKind::ServeSnap,
        now2 < sat_add(st.last_synced_at, FRESHNESS_WINDOW_SECONDS),
    ensures
        decide_sync(st, false, now2) == DecisionKind::ServeSnap,
{
}


// ---------------------------------------------------------------------------
// Optimistic mutation, deferred deletion, search
// ---------------------------------------------------------------------------

/// Some folder state of this identity holds the message.
pub open spec fn msg_locatable(ss: Seq<FolderStateV>, ident: Seq<char>, id: Seq<char>) -> bool {
    exists|k: int|
        0 <= k < ss.len() && (#[trigger] ss[k]).identity_id == ident && has_id(ss[k].snapshot, id)
}

/// The first folder state of this identity holding the message.
pub open spec fn folder_of_msg(ss: Seq<FolderStateV>, ident: Seq<char>, id: Seq<char>) -> int {
    choose|k: int|
        0 <= k < ss.len() && (#[trigger] ss[k]).identity_id == ident && has_id(ss[k].snapshot, id)
            && (forall|j: int|
            0 <= j < k ==> !(ss[j].identity_id == ident && has_id(ss[j].snapshot, id)))
}

/// A pending change for this (message, flag) exists.
pub open spec fn has_pending(p: Seq<PendingChangeV>, id: Seq<char>, f: FlagField) -> bool {
    exists|i: int|
        0 <= i < p.len() && (#[trigger] p[i]).message_id == id && p[i].field == f
}

/// The first (oldest) pending change for this (message, flag): propagations
/// resolve in request order.
pub open spec fn idx_of_pending(p: Seq<PendingChangeV>, id: Seq<char>, f: FlagField) -> int {
    choose|i: int|
        0 <= i < p.len() && (#[trigger] p[i]).message_id == id && p[i].field == f && (forall|
            j: int,
        |
            0 <= j < i ==> !(p[j].message_id == id && p[j].field == f))
}

/// Some folder state of this identity holds a pending change for the pair.
pub open spec fn pending_locatable(
    ss: Seq<FolderStateV>,
    ident: Seq<char>,
    id: Seq<char>,
    f: FlagField,
) -> bool {
    exists|k: int|
        0 <= k < ss.len() && (#[trigger] ss[k]).identity_id == ident && has_pending(
            ss[k].pending,
            id,
            f,
        )
}

/// The first such folder state.
pub open spec fn folder_of_pending(
    ss: Seq<FolderStateV>,
    ident: Seq<char>,
    id: Seq<char>,
    f: FlagField,
) -> int {
    choose|k: int|
        0 <= k < ss.len() && (#[trigger] ss[k]).identity_id == ident && has_pending(
            ss[k].pending,
            id,
            f,
        ) && (forall|j: int|
            0 <= j < k ==> !(ss[j].identity_id == ident && has_pending(ss[j].pending, id, f)))
}

/// A folder state after an optimistic mutation of one message: the flags
/// written into the snapshot at once, and one pending change recorded per
/// written flag (read first, then starred), carrying the prior value for
/// rollback.
pub open spec fn mutated_state(
    st: FolderStateV,
    id: Seq<char>,
    read: Option<bool>,
    starred: Option<bool>,
) -> FolderStateV {
    let m = idx_of_id(st.snapshot, id);
    let e = st.snapshot[m];
    let e1 = if read is Some {
        EmailV { unread: !read->0, ..e }
    } else {
        e
    };
    let e2 = if starred is Some {
        EmailV { starred: starred->0, ..e1 }
    } else {
        e1
    };
    let p1 = if read is Some {
        st.pending.push(
            PendingChangeV {
                message_id: id,
                field: FlagField::Read,
                prior: e.unread,
                target: !read->0,
            },
        )
    } else {
        st.pending
    };
    let p2 = if starred is Some {
        p1.push(
            PendingChangeV {
                message_id: id,
                field: FlagField::Starred,
                prior: e.starred,
                target: starred->0,
            },
        )
    } else {
        p1
    };
    FolderStateV { snapshot: st.snapshot.update(m, e2), pending: p2, ..st }
}

/// A folder state after the remote propagation of its oldest pending change
/// for (message, flag) came back: confirmed changes are simply forgotten;
/// failed ones are rolled back to the recorded prior value, never silently
/// dropped (the next listing shows the reverted flag).
#[verifier::opaque]
pub open spec fn resolved_state(st: FolderStateV, id: Seq<char>, f: FlagField, ok: bool)
    -> FolderStateV {
    let p = idx_of_pending(st.pending, id, f);
    let entry = st.pending[p];
    let pend2 = st.pending.remove(p);
    if ok {
        FolderStateV { pending: pend2, ..st }
    } else {
        if has_id(st.snapshot, id) {
            let m = idx_of_id(st.snapshot, id);
            FolderStateV {
                pending: pend2,
                snapshot: st.snapshot.update(m, set_field(st.snapshot[m], f, entry.prior)),
                ..st
            }
        } else {
            FolderStateV { pending: pend2, ..st }
        }
    }
}

/// A folder state after the remote server confirmed a delete: the message
/// leaves the snapshot only now.
pub open spec fn deleted_state(st: FolderStateV, id: Seq<char>) -> FolderStateV {
    let m = idx_of_id(st.snapshot, id);
    FolderStateV { snapshot: st.snapshot.remove(m), ..st }
}

/// A message matches a query on its subject, sender or preview, ignoring
/// ASCII case.
pub open spec fn email_matches(e: EmailV, q: Seq<char>) -> bool {
    contains_ci(e.subject, q) || contains_ci(e.from, q) || contains_ci(e.preview, q)
}

/// The matching messages of one snapshot, in snapshot order.
pub open spec fn filter_matching(s: Seq<EmailV>, q: Seq<char>) -> Seq<EmailV>
    decreases s.len(),
{
    if s.len() == 0 {
        Seq::empty()
    } else {
        filter_matching(s.drop_last(), q) + (if email_matches(s.last(), q) {
            seq![s.last()]
        } else {
            Seq::empty()
        })
    }
}

/// The matching messages over every folder snapshot of the identity, in
/// folder order.
pub open spec fn search_spec(ss: Seq<FolderStateV>, ident: Seq<char>, q: Seq<char>) -> Seq<EmailV>
    decreases ss.len(),
{
    if ss.len() == 0 {
        Seq::empty()
    } else {
        search_spec(ss.drop_last(), ident, q) + (if ss.last().identity_id == ident {
            filter_matching(ss.last().snapshot, q)
        } else {
            Seq::empty()
        })
    }
}

/// The first (oldest) pending change for this (message, flag) in one list.
fn find_pending_entry(pending: &Vec<PendingChange>, message_id: &str, field: FlagField) -> (r:
    Option<usize>)
    ensures
        match r {
            Some(p) => p < pending@.len() && pendings_of(pending@)[p as int].message_id
                == message_id@ && pendings_of(pending@)[p as int].field == field && (forall|j: int|
                0 <= j < p ==> !((#[trigger] pendings_of(pending@)[j]).message_id == message_id@
                    && pendings_of(pending@)[j].field == field)),
            None => !has_pending(pendings_of(pending@), message_id@, field),
        },
{
    let ghost pv = pendings_of(pending@);
    let mut p: usize = 0;
    while p < pending.len()
        invariant
            p <= pending@.len(),
            pv == pendings_of(pending@),
            forall|j: int|
                0 <= j < p ==> !((#[trigger] pv[j]).message_id == message_id@ && pv[j].field
                    == field),
        decreases pending@.len() - p,
    {
        let entry = &pending[p];
        if str_eq(entry.message_id.as_str(), message_id) && entry.field == field {
            return Some(p);
        }
        p = p + 1;
    }
    None
}

/// Resolves the pending change at `p` inside one folder state: drops it,
/// and on failure writes its recorded prior value back into the snapshot.
#[verifier::rlimit(100)]
#[verifier::spinoff_prover]
fn resolve_in_folder(st: &mut FolderState, p: usize, message_id: &str, field: FlagField, ok: bool)
    requires
        (p as int) < old(st)@.pending.len(),
        old(st)@.pending[p as int].message_id == message_id@,
        old(st)@.pending[p as int].field == field,
        idx_of_pending(old(st)@.pending, message_id@, field) == p as int,
    ensures
        final(st)@ == resolved_state(old(st)@, message_id@, field, ok),
{
    proof {
        reveal(resolved_state);
    }
    let ghost stv = st@;
    let entry = st.pending.remove(p);
    proof {
        assert(st@.pending =~= stv.pending.remove(p as int));
    }
    if !ok {
        match crate::sync::find_by_id(&st.snapshot, message_id) {
            Some(m) => {
                proof {
                    let snap = stv.snapshot;
                    assert(has_id(snap, message_id@));
                    let mi = idx_of_id(snap, message_id@);
                    crate::sync::lemma_first_id_exists(snap, message_id@, m as int);
                    if mi < m as int {
                        assert(snap[mi].id != message_id@);
                    }
                    if (m as int) < mi {
                        assert(snap[m as int].id != message_id@);
                    }
                    assert(mi == m as int);
                }
                let mut upd = st.snapshot[m].duplicate();
                match field {
                    FlagField::Read => {
                        upd = Email { unread: entry.prior, ..upd };
                    },
                    FlagField::Starred => {
                        upd = Email { starred: entry.prior, ..upd };
                    },
                }
                proof {
                    assert(upd@ == set_field(stv.snapshot[m as int], field, entry@.prior));
                }
                st.snapshot.set(m, upd);
                proof {
                    assert(st@.snapshot =~= stv.snapshot.update(
                        m as int,
                        set_field(stv.snapshot[m as int], field, stv.pending[p as int].prior),
                    ));
                }
            },
            None => {
                proof {
                    assert(!has_id(stv.snapshot, message_id@));
                }
            },
        }
    }
    proof {
        assert(st@ =~~= resolved_state(stv, message_id@, field, ok));
    }
}

impl SyncEngine {
    /// The first folder of this identity holding the message, if any.
    fn find_msg(&self, identity_id: &str, message_id: &str) -> (r: Option<(usize, usize)>)
        ensures
            match r {
                Some(km) => {
                    let (k, m) = km;
                    &&& k < self@.len()
                    &&& self@[k as int].identity_id == identity_id@
                    &&& has_id(self@[k as int].snapshot, message_id@)
                    &&& folder_of_msg(self@, identity_id@, message_id@) == k as int
                    &&& (m as int) < self@[k as int].snapshot.len()
                    &&& self@[k as int].snapshot[m as int].id == message_id@
                    &&& idx_of_id(self@[k as int].snapshot, message_id@) == m as int
                },
                None => !msg_locatable(self@, identity_id@, message_id@),
            },
    {
        let mut k: usize = 0;
        while k < self.folders.len()
            invariant
                k <= self@.len(),
                self@ == states_of(self.folders@),
                forall|j: int|
                    0 <= j < k ==> !((#[trigger] self@[j]).identity_id == identity_id@ && has_id(
                        self@[j].snapshot,
                        message_id@,
                    )),
            decreases self@.len() - k,
        {
            let st = &self.folders[k];
            if str_eq(st.cursor.identity_id.as_str(), identity_id) {
                match crate::sync::find_by_id(&st.snapshot, message_id) {
                    Some(m) => {
                        proof {
                            assert(has_id(self@[k as int].snapshot, message_id@));
                            assert(0 <= (k as int) < self@.len() && self@[k as int].identity_id
                                == identity_id@ && has_id(self@[k as int].snapshot, message_id@)
                                && (forall|j: int|
                                0 <= j < k as int ==> !(self@[j].identity_id == identity_id@
                                    && has_id(self@[j].snapshot, message_id@))));
                            let c = folder_of_msg(self@, identity_id@, message_id@);
                            assert(0 <= c < self@.len() && self@[c].identity_id == identity_id@
                                && has_id(self@[c].snapshot, message_id@) && (forall|j: int|
                                0 <= j < c ==> !(self@[j].identity_id == identity_id@ && has_id(
                                    self@[j].snapshot,
                                    message_id@,
                                ))));
                            if c < k as int {
                                assert(!(self@[c].identity_id == identity_id@ && has_id(
                                    self@[c].snapshot,
                                    message_id@,
                                )));
                            }
                            if (k as int) < c {
                                assert(!(self@[k as int].identity_id == identity_id@ && has_id(
                                    self@[k as int].snapshot,
                                    message_id@,
                                )));
                            }
                            let snap = self@[k as int].snapshot;
                            assert(0 <= (m as int) < snap.len() && snap[m as int].id == message_id@
                                && (forall|j: int| 0 <= j < m as int ==> snap[j].id != message_id@));
                            let mi = idx_of_id(snap, message_id@);
                            assert(0 <= mi < snap.len() && snap[mi].id == message_id@ && (forall|
                                j: int,
                            |
                                0 <= j < mi ==> snap[j].id != message_id@));
                            if mi < m as int {
                                assert(snap[mi].id != message_id@);
                            }
                            if (m as int) < mi {
                                assert(snap[m as int].id != message_id@);
                            }
                        }
                        return Some((k, m));
                    },
                    None => {},
                }
            }
            k = k + 1;
        }
        None
    }

    /// Applies a flag change optimistically: the caller sees it at once in
    /// the snapshot, a pending record per written flag remembers the prior
    /// value, and the remote propagation is handed back later through
    /// `apply_mutation_result`. Changes apply in request order.
    #[verifier::rlimit(100)]
    #[verifier::spinoff_prover]
    pub fn mutate(
        &mut self,
        identity_id: &str,
        message_id: &str,
        read: Option<bool>,
        starred: Option<bool>,
    ) -> (r: Result<(), SyncError>)
        ensures
            ({
                let ss = old(self)@;
                if msg_locatable(ss, identity_id@, message_id@) {
                    let k = folder_of_msg(ss, identity_id@, message_id@);
                    &&& r is Ok
                    &&& final(self)@ == ss.update(
                        k,
                        mutated_state(ss[k], message_id@, read, starred),
                    )
                } else {
                    r == Err::<(), SyncError>(SyncError::NotFound) && final(self)@ == ss
                }
            }),
    {
        match self.find_msg(identity_id, message_id) {
            None => Err(SyncError::NotFound),
            Some((k, m)) => {
                let ghost ss = self@;
                let ghost stv = self@[k as int];
                let mut taken = self.folders.remove(k);
                let ghost e = stv.snapshot[m as int];
                let orig = taken.snapshot[m].duplicate();
                let mut upd = taken.snapshot[m].duplicate();
                match read {
                    Some(rv) => {
                        upd = Email { unread: !rv, ..upd };
                        taken.pending.push(
                            PendingChange {
                                message_id: message_id.to_owned(),
                                field: FlagField::Read,
                                prior: orig.unread,
                                target: !rv,
                            },
                        );
                    },
                    None => {},
                }
                match starred {
                    Some(sv) => {
                        upd = Email { starred: sv, ..upd };
                        taken.pending.push(
                            PendingChange {
                                message_id: message_id.to_owned(),
                                field: FlagField::Starred,
                                prior: orig.starred,
                                target: sv,
                            },
                        );
                    },
                    None => {},
                }
                taken.snapshot.set(m, upd);
                proof {
                    let tgt = mutated_state(stv, message_id@, read, starred);
                    assert(taken@.snapshot =~= tgt.snapshot);
                    assert(taken@.pending =~= tgt.pending);
                    assert(taken@ =~~= tgt);
                }
                self.folders.insert(k, taken);
                proof {
                    assert(self@ =~= ss.update(
                        k as int,
                        mutated_state(stv, message_id@, read, starred),
                    ));
                }
                Ok(())
            },
        }
    }

    /// The first folder of this identity holding a pending change for the
    /// pair, and that change's position.
    fn find_pending(&self, identity_id: &str, message_id: &str, field: FlagField) -> (r: Option<
        (usize, usize),
    >)
        ensures
            match r {
                Some(kp) => {
                    let (k, p) = kp;
                    &&& k < self@.len()
                    &&& self@[k as int].identity_id == identity_id@
                    &&& has_pending(self@[k as int].pending, message_id@, field)
                    &&& folder_of_pending(self@, identity_id@, message_id@, field) == k as int
                    &&& (p as int) < self@[k as int].pending.len()
                    &&& self@[k as int].pending[p as int].message_id == message_id@
                    &&& self@[k as int].pending[p as int].field == field
                    &&& idx_of_pending(self@[k as int].pending, message_id@, field) == p as int
                },
                None => !pending_locatable(self@, identity_id@, message_id@, field),
            },
    {
        let mut k: usize = 0;
        while k < self.folders.len()
            invariant
                k <= self@.len(),
                self@ == states_of(self.folders@),
                forall|j: int|
                    0 <= j < k ==> !((#[trigger] self@[j]).identity_id == identity_id@
                        && has_pending(self@[j].pending, message_id@, field)),
            decreases self@.len() - k,
        {
            let st = &self.folders[k];
            if str_eq(st.cursor.identity_id.as_str(), identity_id) {
                let ghost pv = self@[k as int].pending;
                let found = find_pending_entry(&st.pending, message_id, field);
                match found {
                    Some(p) => {
                        proof {
                            assert(has_pending(self@[k as int].pending, message_id@, field));
                            assert(0 <= (k as int) < self@.len() && self@[k as int].identity_id
                                == identity_id@ && has_pending(
                                self@[k as int].pending,
                                message_id@,
                                field,
                            ) && (forall|j: int|
                                0 <= j < k as int ==> !(self@[j].identity_id == identity_id@
                                    && has_pending(self@[j].pending, message_id@, field))));
                            let c = folder_of_pending(self@, identity_id@, message_id@, field);
                            assert(0 <= c < self@.len() && self@[c].identity_id == identity_id@
                                && has_pending(self@[c].pending, message_id@, field) && (forall|
                                j: int,
                            |
                                0 <= j < c ==> !(self@[j].identity_id == identity_id@
                                    && has_pending(self@[j].pending, message_id@, field))));
                            if c < k as int {
                                assert(!(self@[c].identity_id == identity_id@ && has_pending(
                                    self@[c].pending,
                                    message_id@,
                                    field,
                                )));
                            }
                            if (k as int) < c {
                                assert(!(self@[k as int].identity_id == identity_id@
                                    && has_pending(self@[k as int].pending, message_id@, field)));
                            }
                            assert(0 <= (p as int) < pv.len() && pv[p as int].message_id
                                == message_id@ && pv[p as int].field == field && (forall|j: int|
                                0 <= j < p as int ==> !(pv[j].message_id == message_id@
                                    && pv[j].field == field)));
                            let ci = idx_of_pending(pv, message_id@, field);
                            assert(0 <= ci < pv.len() && pv[ci].message_id == message_id@
                                && pv[ci].field == field && (forall|j: int|
                                0 <= j < ci ==> !(pv[j].message_id == message_id@ && pv[j].field
                                    == field)));
                            if ci < p as int {
                                assert(!(pv[ci].message_id == message_id@ && pv[ci].field
                                    == field));
                            }
                            if (p as int) < ci {
                                assert(!(pv[p as int].message_id == message_id@ && pv[
                                    p as int].field == field));
                            }
                        }
                        return Some((k, p));
                    },
                    None => {},
                }
            }
            k = k + 1;
        }
        None
    }

    /// Hands back the remote outcome of one propagated flag change. A
    /// confirmed change is forgotten; a failed one is rolled back to the
    /// recorded prior value and so surfaces on the next listing.
    /// Hands back the remote outcome of one propagated flag change. A
    /// confirmed change is forgotten; a failed one is rolled back to the
    /// recorded prior value and so surfaces on the next listing.
    #[verifier::rlimit(100)]
    #[verifier::spinoff_prover]
    pub fn apply_mutation_result(
        &mut self,
        identity_id: &str,
        message_id: &str,
        field: FlagField,
        ok: bool,
    )
        ensures
            ({
                let ss = old(self)@;
                if pending_locatable(ss, identity_id@, message_id@, field) {
                    let k = folder_of_pending(ss, identity_id@, message_id@, field);
                    final(self)@ == ss.update(k, resolved_state(ss[k], message_id@, field, ok))
                } else {
                    final(self)@ == ss
                }
            }),
    {
        match self.find_pending(identity_id, message_id, field) {
            None => {},
            Some((k, p)) => {
                let ghost ss = self@;
                let ghost stv = self@[k as int];
                let mut taken = self.folders.remove(k);
                resolve_in_folder(&mut taken, p, message_id, field, ok);
                self.folders.insert(k, taken);
                proof {
                    assert(self@ =~= ss.update(
                        k as int,
                        resolved_state(stv, message_id@, field, ok),
                    ));
                }
            },
        }
    }

    /// Asks for a remote delete: the snapshot is left untouched until the
    /// server confirms, so the message is never shown as gone while it is
    /// still retrievable. `NotFound` where no folder of the identity holds
    /// the message.
    pub fn delete(&self, identity_id: &str, message_id: &str) -> (r: Result<(), SyncError>)
        ensures
            (r is Ok) == msg_locatable(self@, identity_id@, message_id@),
            r is Err ==> r == Err::<(), SyncError>(SyncError::NotFound),
    {
        match self.find_msg(identity_id, message_id) {
            Some(_) => Ok(()),
            None => Err(SyncError::NotFound),
        }
    }

    /// Hands back the remote outcome of a delete. Only a confirmation
    /// removes the message; a rejection leaves the snapshot exactly as it
    /// was, so the next listing still shows the message.
    #[verifier::rlimit(100)]
    pub fn apply_delete_result(&mut self, identity_id: &str, message_id: &str, ok: bool)
        ensures
            ({
                let ss = old(self)@;
                if ok && msg_locatable(ss, identity_id@, message_id@) {
                    let k = folder_of_msg(ss, identity_id@, message_id@);
                    final(self)@ == ss.update(k, deleted_state(ss[k], message_id@))
                } else {
                    final(self)@ == ss
                }
            }),
    {
        if !ok {
            return;
        }
        match self.find_msg(identity_id, message_id) {
            None => {},
            Some((k, m)) => {
                let ghost ss = self@;
                let ghost stv = self@[k as int];
                let mut taken = self.folders.remove(k);
                let _removed = taken.snapshot.remove(m);
                proof {
                    let tgt = deleted_state(stv, message_id@);
                    assert(taken@.snapshot =~= tgt.snapshot);
                    assert(taken@ =~~= tgt);
                }
                self.folders.insert(k, taken);
                proof {
                    assert(self@ =~= ss.update(k as int, deleted_state(stv, message_id@)));
                }
            },
        }
    }

    /// A local, case-insensitive substring search over subject, sender and
    /// preview of every folder snapshot of the identity. Purely local: no
    /// remote round trip is triggered.
    pub fn search(&self, identity_id: &str, q: &str) -> (r: Vec<Email>)
        ensures
            emails_of(r@) == search_spec(self@, identity_id@, q@),
    {
        let mut out: Vec<Email> = Vec::new();
        let mut k: usize = 0;
        while k < self.folders.len()
            invariant
                k <= self@.len(),
                self@ == states_of(self.folders@),
                emails_of(out@) == search_spec(self@.take(k as int), identity_id@, q@),
            decreases self@.len() - k,
        {
            proof {
                assert(self@.take(k as int + 1).drop_last() =~= self@.take(k as int));
                assert(self@.take(k as int + 1).last() == self@[k as int]);
            }
            let st = &self.folders[k];
            if str_eq(st.cursor.identity_id.as_str(), identity_id) {
                let ghost snap = self@[k as int].snapshot;
                let ghost base = emails_of(out@);
                let mut j: usize = 0;
                while j < st.snapshot.len()
                    invariant
                        j <= st.snapshot@.len(),
                        snap == emails_of(st.snapshot@),
                        emails_of(out@) == base + filter_matching(snap.take(j as int), q@),
                    decreases st.snapshot@.len() - j,
                {
                    proof {
                        assert(snap.take(j as int + 1).drop_last() =~= snap.take(j as int));
                        assert(snap.take(j as int + 1).last() == snap[j as int]);
                    }
                    let e = &st.snapshot[j];
                    if str_contains_ci(e.subject.as_str(), q) || str_contains_ci(
                        e.from.as_str(),
                        q,
                    ) || str_contains_ci(e.preview.as_str(), q) {
                        let ghost prev = out@;
                        let d = e.duplicate();
                        out.push(d);
                        proof {
                            assert(emails_of(prev).len() == prev.len());
                            assert(out@ == prev.push(d));
                            assert forall|i: int| 0 <= i < out@.len() implies emails_of(out@)[i]
                                == (base + filter_matching(snap.take(j as int + 1), q@))[i] by {
                                if i < prev.len() {
                                    assert(out@[i] == prev[i]);
                                    assert(emails_of(prev)[i] == (base + filter_matching(
                                        snap.take(j as int),
                                        q@,
                                    ))[i]);
                                } else {
                                    assert(out@[i] == d);
                                    assert(email_matches(snap[j as int], q@));
                                }
                            }
                            assert(emails_of(out@) =~= base + filter_matching(
                                snap.take(j as int + 1),
                                q@,
                            ));
                        }
                    } else {
                        proof {
                            assert(!email_matches(snap[j as int], q@));
                            assert(emails_of(out@) =~= base + filter_matching(
                                snap.take(j as int + 1),
                                q@,
                            ));
                        }
                    }
                    j = j + 1;
                }
                proof {
                    assert(snap.take(snap.len() as int) =~= snap);
                    assert(emails_of(out@) =~= search_spec(
                        self@.take(k as int + 1),
                        identity_id@,
                        q@,
                    ));
                }
            } else {
                proof {
                    assert(emails_of(out@) =~= search_spec(
                        self@.take(k as int + 1),
                        identity_id@,
                        q@,
                    ));
                }
            }
            k = k + 1;
        }
        proof {
            assert(self@.take(self@.len() as int) =~= self@);
        }
        out
    }
}

/// Law: optimistic rollback — a flag mutation whose remote propagation
/// fails leaves the message's flag exactly as it was before the mutation,
/// and no pending record behind.
/// The pushed entry is the first pending record for its (message, flag)
/// where none existed before.
proof fn lemma_pushed_pending_is_first(pend: Seq<PendingChangeV>, entry: PendingChangeV)
    requires
        !has_pending(pend, entry.message_id, entry.field),
    ensures
        idx_of_pending(pend.push(entry), entry.message_id, entry.field) == pend.len(),
        pend.push(entry).remove(pend.len() as int) =~= pend,
{
    let p1 = pend.push(entry);
    let pl = pend.len() as int;
    assert(p1[pl].message_id == entry.message_id && p1[pl].field == entry.field);
    assert(forall|j: int|
        0 <= j < pl ==> !((#[trigger] p1[j]).message_id == entry.message_id && p1[j].field
            == entry.field)) by {
        assert(forall|j: int| 0 <= j < pl ==> p1[j] == pend[j]);
    }
    let pi = idx_of_pending(p1, entry.message_id, entry.field);
    assert(0 <= pi < p1.len() && p1[pi].message_id == entry.message_id && p1[pi].field
        == entry.field && (forall|j: int|
        0 <= j < pi ==> !(p1[j].message_id == entry.message_id && p1[j].field == entry.field)));
    if pi < pl {
        assert(!(p1[pi].message_id == entry.message_id && p1[pi].field == entry.field));
    }
}

/// Updating a message in place (same id) keeps it the first carrier of its id.
proof fn lemma_update_keeps_first_id(snap: Seq<EmailV>, m: int, e2: EmailV, id: Seq<char>)
    requires
        0 <= m < snap.len(),
        idx_of_id(snap, id) == m,
        snap[m].id == id,
        forall|j: int| 0 <= j < m ==> (#[trigger] snap[j]).id != id,
        e2.id == id,
    ensures
        has_id(snap.update(m, e2), id),
        idx_of_id(snap.update(m, e2), id) == m,
{
    let s1 = snap.update(m, e2);
    assert(s1[m].id == id);
    assert(forall|j: int| 0 <= j < m ==> (#[trigger] s1[j]).id != id) by {
        assert(forall|j: int| 0 <= j < m ==> s1[j] == snap[j]);
    }
    let mi = idx_of_id(s1, id);
    assert(0 <= mi < s1.len() && s1[mi].id == id && (forall|j: int|
        0 <= j < mi ==> s1[j].id != id));
    if mi < m {
        assert(s1[mi].id != id);
    }
    if m < mi {
        assert(s1[m].id != id);
    }
}

/// Law: optimistic rollback — a flag mutation whose remote propagation
/// fails leaves the message's flag exactly as it was before the mutation,
/// and no pending record behind.
#[verifier::rlimit(100)]
#[verifier::spinoff_prover]
pub proof fn lemma_optimistic_rollback(st: FolderStateV, id: Seq<char>, rv: bool)
    requires
        has_id(st.snapshot, id),
        !has_pending(st.pending, id, FlagField::Read),
        forall|j: int| 0 <= j < idx_of_id(st.snapshot, id) ==> (#[trigger] st.snapshot[j]).id != id,
    ensures
        ({
            let st2 = resolved_state(
                mutated_state(st, id, Some(rv), None),
                id,
                FlagField::Read,
                false,
            );
            let m = idx_of_id(st.snapshot, id);
            &&& st2.snapshot[m].unread == st.snapshot[m].unread
            &&& st2.snapshot[m].id == st.snapshot[m].id
            &&& st2.pending == st.pending
        }),
{
    reveal(resolved_state);
    crate::sync::lemma_idx_of_id_works(st.snapshot, id);
    let m = idx_of_id(st.snapshot, id);
    let e = st.snapshot[m];
    let st1 = mutated_state(st, id, Some(rv), None);
    let entry = PendingChangeV {
        message_id: id,
        field: FlagField::Read,
        prior: e.unread,
        target: !rv,
    };
    assert(st1.pending == st.pending.push(entry));
    assert(st1.snapshot == st.snapshot.update(m, (EmailV { unread: !rv, ..e })));
    lemma_pushed_pending_is_first(st.pending, entry);
    lemma_update_keeps_first_id(st.snapshot, m, (EmailV { unread: !rv, ..e }), id);
    let st2 = resolved_state(st1, id, FlagField::Read, false);
    assert(st2.pending =~= st.pending);
    assert(st2.snapshot[m] == set_field(st1.snapshot[m], FlagField::Read, entry.prior));
    assert(st2.snapshot[m].unread == e.unread);
}

} // verus!

use vstd::prelude::*;
use crate::models::{Email, EmailV};
use crate::text::str_eq;

verus! {

/// A cached listing younger than this many seconds is served without a
/// remote round trip.
pub const FRESHNESS_WINDOW_SECONDS: u64 = 60;

/// Per-(identity, folder) bookkeeping of how far synchronization has come.
pub struct FolderCursor {
    pub identity_id: String,
    pub folder_name: String,
    pub last_synced_at: u64,
    pub remote_uid_high_water_mark: u64,
}

/// Which optimistically mutable flag a pending change touches.
#[derive(Clone, Copy, Debug, PartialEq, Eq, Structural)]
pub enum FlagField {
    /// The `unread` flag.
    Read,
    /// The `starred` flag.
    Starred,
}

/// One optimistic flag change not yet confirmed by the remote server:
/// enough to re-apply it over fresh server state and to roll it back.
pub struct PendingChange {
    pub message_id: String,
    pub field: FlagField,
    /// Flag value before the optimistic change (for rollback).
    pub prior: bool,
    /// Flag value the optimistic change wrote.
    pub target: bool,
}

/// Mathematical image of a [`PendingChange`].
#[verifier::ext_equal]
pub ghost struct PendingChangeV {
    pub message_id: Seq<char>,
    pub field: FlagField,
    pub prior: bool,
    pub target: bool,
}

impl View for PendingChange {
    type V = PendingChangeV;

    open spec fn view(&self) -> PendingChangeV {
        PendingChangeV {
            message_id: self.message_id@,
            field: self.field,
            prior: self.prior,
            target: self.target,
        }
    }
}

/// The synchronization state of one (identity, folder) pair: its cursor, the
/// last reconciled snapshot (newest first), and unconfirmed local changes.
pub struct FolderState {
    pub cursor: FolderCursor,
    pub synced_once: bool,
    pub in_flight: bool,
    pub snapshot: Vec<Email>,
    pub pending: Vec<PendingChange>,
}

/// Mathematical image of a [`FolderState`].
#[verifier::ext_equal]
pub ghost struct FolderStateV {
    pub identity_id: Seq<char>,
    pub folder_name: Seq<char>,
    pub last_synced_at: u64,
    pub uid_high: u64,
    pub synced_once: bool,
    pub in_flight: bool,
    pub snapshot: Seq<EmailV>,
    pub pending: Seq<PendingChangeV>,
}

impl View for FolderState {
    type V = FolderStateV;

    open spec fn view(&self) -> FolderStateV {
        FolderStateV {
            identity_id: self.cursor.identity_id@,
            folder_name: self.cursor.folder_name@,
            last_synced_at: self.cursor.last_synced_at,
            uid_high: self.cursor.remote_uid_high_water_mark,
            synced_once: self.synced_once,
            in_flight: self.in_flight,
            snapshot: self.snapshot@.map(|i: int, e: Email| e@),
            pending: self.pending@.map(|i: int, e: PendingChange| e@),
        }
    }
}

// ---------------------------------------------------------------------------
// Spec-level snapshot reconciliation
// ---------------------------------------------------------------------------


/// The views of a list of messages.
pub open spec fn emails_of(v: Seq<Email>) -> Seq<EmailV> {
    v.map(|k: int, e: Email| e@)
}

/// The views of a list of pending changes.
pub open spec fn pendings_of(v: Seq<PendingChange>) -> Seq<PendingChangeV> {
    v.map(|k: int, p: PendingChange| p@)
}

/// Some message in `s` carries this id.
pub open spec fn has_id(s: Seq<EmailV>, id: Seq<char>) -> bool {
    exists|i: int| 0 <= i < s.len() && (#[trigger] s[i]).id == id
}

/// The first index carrying this id (unique by minimality).
pub open spec fn idx_of_id(s: Seq<EmailV>, id: Seq<char>) -> int {
    choose|i: int|
        0 <= i < s.len() && (#[trigger] s[i]).id == id && (forall|j: int|
            0 <= j < i ==> s[j].id != id)
}

/// One flag written into a message.
pub open spec fn set_field(e: EmailV, f: FlagField, v: bool) -> EmailV {
    match f {
        FlagField::Read => EmailV { unread: v, ..e },
        FlagField::Starred => EmailV { starred: v, ..e },
    }
}

/// All pending changes for this message re-applied over server state, in
/// request order.
pub open spec fn apply_pending_email(e: EmailV, pending: Seq<PendingChangeV>) -> EmailV
    decreases pending.len(),
{
    if pending.len() == 0 {
        e
    } else {
        let prev = apply_pending_email(e, pending.drop_last());
        let p = pending.last();
        if p.message_id == e.id {
            set_field(prev, p.field, p.target)
        } else {
            prev
        }
    }
}

/// The fetched messages not yet in the snapshot, newest first (the server
/// hands its listing oldest first).
pub open spec fn fresh_part(old: Seq<EmailV>, fetched: Seq<EmailV>) -> Seq<EmailV>
    decreases fetched.len(),
{
    if fetched.len() == 0 {
        Seq::empty()
    } else {
        let rest = fresh_part(old, fetched.drop_last());
        if has_id(old, fetched.last().id) {
            rest
        } else {
            seq![fetched.last()] + rest
        }
    }
}

/// Each snapshot entry refreshed: where the server re-sent the message its
/// state wins, except that unconfirmed local overrides are re-applied; where
/// it did not, the entry stays as it was.
pub open spec fn reconciled_old(
    old: Seq<EmailV>,
    fetched: Seq<EmailV>,
    pending: Seq<PendingChangeV>,
) -> Seq<EmailV> {
    old.map(
        |i: int, e: EmailV|
            if has_id(fetched, e.id) {
                apply_pending_email(fetched[idx_of_id(fetched, e.id)], pending)
            } else {
                e
            },
    )
}

/// The merged snapshot after a fetch: new messages in front (newest first),
/// then the refreshed old entries in their stable order.
pub open spec fn merge_spec(
    old: Seq<EmailV>,
    fetched: Seq<EmailV>,
    pending: Seq<PendingChangeV>,
) -> Seq<EmailV> {
    fresh_part(old, fetched) + reconciled_old(old, fetched, pending)
}

/// No two messages share an id.
pub open spec fn unique_ids(s: Seq<EmailV>) -> bool {
    forall|i: int, j: int|
        0 <= i < j < s.len() ==> (#[trigger] s[i]).id != (#[trigger] s[j]).id
}

// ---------------------------------------------------------------------------
// Executable snapshot reconciliation
// ---------------------------------------------------------------------------

/// The first snapshot position carrying `id`, if any.
pub(crate) fn find_by_id(v: &Vec<Email>, id: &str) -> (r: Option<usize>)
    ensures
        match r {
            Some(i) => i < v@.len() && emails_of(v@)[i as int].id == id@
                && forall|j: int|
                    0 <= j < i ==> (#[trigger] emails_of(v@)[j]).id != id@,
            None => !has_id(emails_of(v@), id@),
        },
{
    let ghost view = emails_of(v@);
    let mut i: usize = 0;
    while i < v.len()
        invariant
            i <= v@.len(),
            view == emails_of(v@),
            forall|j: int| 0 <= j < i ==> (#[trigger] view[j]).id != id@,
        decreases v@.len() - i,
    {
        if str_eq(v[i].id.as_str(), id) {
            return Some(i);
        }
        i = i + 1;
    }
    None
}

/// Applies every pending change for this message, in request order.
fn apply_pending_exec(e: Email, pending: &Vec<PendingChange>) -> (r: Email)
    ensures
        r@ == apply_pending_email(e@, pendings_of(pending@)),
{
    let ghost pview = pendings_of(pending@);
    let ghost orig = e@;
    let mut cur = e;
    let mut i: usize = 0;
    while i < pending.len()
        invariant
            i <= pending@.len(),
            pview == pendings_of(pending@),
            cur@ == apply_pending_email(orig, pview.take(i as int)),
            cur@.id == orig.id,
        decreases pending@.len() - i,
    {
        proof {
            assert(pview.take(i as int + 1).drop_last() =~= pview.take(i as int));
            assert(pview.take(i as int + 1).last() == pview[i as int]);
        }
        let p = &pending[i];
        if str_eq(p.message_id.as_str(), cur.id.as_str()) {
            match p.field {
                FlagField::Read => {
                    cur = Email { unread: p.target, ..cur };
                },
                FlagField::Starred => {
                    cur = Email { starred: p.target, ..cur };
                },
            }
        }
        i = i + 1;
    }
    proof {
        assert(pview.take(pview.len() as int) =~= pview);
    }
    cur
}

/// Merges a fetched listing into a snapshot, per [`merge_spec`].
pub(crate) fn merge_snapshots(old_snap: &Vec<Email>, fetched: &Vec<Email>, pending: &Vec<PendingChange>) -> (r:
    Vec<Email>)
    ensures
        emails_of(r@) == merge_spec(
            emails_of(old_snap@),
            emails_of(fetched@),
            pendings_of(pending@),
        ),
{
    let ghost oldv = emails_of(old_snap@);
    let ghost fetv = emails_of(fetched@);
    let ghost penv = pendings_of(pending@);
    let mut out: Vec<Email> = Vec::new();
    // New messages, newest first.
    let mut i: usize = 0;
    while i < fetched.len()
        invariant
            i <= fetched@.len(),
            oldv == emails_of(old_snap@),
            fetv == emails_of(fetched@),
            emails_of(out@) == fresh_part(oldv, fetv.take(i as int)),
        decreases fetched@.len() - i,
    {
        proof {
            assert(fetv.take(i as int + 1).drop_last() =~= fetv.take(i as int));
            assert(fetv.take(i as int + 1).last() == fetv[i as int]);
        }
        match find_by_id(old_snap, fetched[i].id.as_str()) {
            Some(_) => {
                proof {
                    assert(has_id(oldv, fetv[i as int].id));
                }
            },
            None => {
                out.insert(0, fetched[i].duplicate());
                proof {
                    assert(emails_of(out@) =~= fresh_part(
                        oldv,
                        fetv.take(i as int + 1),
                    ));
                }
            },
        }
        i = i + 1;
    }
    proof {
        assert(fetv.take(fetv.len() as int) =~= fetv);
    }
    // Old entries, refreshed.
    let mut j: usize = 0;
    while j < old_snap.len()
        invariant
            j <= old_snap@.len(),
            oldv == emails_of(old_snap@),
            fetv == emails_of(fetched@),
            penv == pendings_of(pending@),
            emails_of(out@) == fresh_part(oldv, fetv) + reconciled_old(
                oldv,
                fetv,
                penv,
            ).take(j as int),
        decreases old_snap@.len() - j,
    {
        let ghost old_out = out@;
        match find_by_id(fetched, old_snap[j].id.as_str()) {
            Some(fi) => {
                proof {
                    assert(0 <= fi < fetv.len() && fetv[fi as int].id == oldv[j as int].id
                        && forall|jj: int| 0 <= jj < fi ==> fetv[jj].id != oldv[j as int].id);
                    let k = idx_of_id(fetv, oldv[j as int].id);
                    assert(0 <= k < fetv.len() && fetv[k].id == oldv[j as int].id && (forall|jj: int|
                        0 <= jj < k ==> fetv[jj].id != oldv[j as int].id));
                    if k < fi as int {
                        assert(fetv[k].id != oldv[j as int].id);
                    }
                    if (fi as int) < k {
                        assert(fetv[fi as int].id != oldv[j as int].id);
                    }
                    assert(k == fi as int);
                }
                proof {
                    assert(has_id(fetv, oldv[j as int].id));
                }
                let refreshed = apply_pending_exec(fetched[fi].duplicate(), pending);
                proof {
                    assert(refreshed@ == apply_pending_email(fetv[fi as int], penv));
                    assert(refreshed@ == reconciled_old(oldv, fetv, penv)[j as int]);
                }
                out.push(refreshed);
            },
            None => {
                proof {
                    assert(!has_id(fetv, oldv[j as int].id));
                }
                let kept = old_snap[j].duplicate();
                proof {
                    assert(kept@ == oldv[j as int]);
                    assert(kept@ == reconciled_old(oldv, fetv, penv)[j as int]);
                }
                out.push(kept);
            },
        }
        proof {
            let prev = emails_of(old_out);
            let cur = emails_of(out@);
            let fp = fresh_part(oldv, fetv);
            let ro = reconciled_old(oldv, fetv, penv);
            let tgt = fp + ro.take(j as int + 1);
            assert(cur.len() == prev.len() + 1);
            assert(cur.len() == tgt.len());
            assert forall|i: int| 0 <= i < cur.len() implies cur[i] == tgt[i] by {
                if i < prev.len() {
                    assert(out@[i] == old_out[i]);
                    assert(cur[i] == prev[i]);
                    assert(prev[i] == (fp + ro.take(j as int))[i]);
                    if i >= fp.len() {
                        assert(ro.take(j as int)[i - fp.len()] == ro[i - fp.len()]);
                    }
                } else {
                    assert(cur[i] == out@[i]@);
                    assert(tgt[i] == ro[j as int]);
                }
            }
            assert(cur =~= tgt);
        }
        j = j + 1;
    }
    proof {
        assert(reconciled_old(oldv, fetv, penv).take(oldv.len() as int) =~= reconciled_old(
            oldv,
            fetv,
            penv,
        ));
    }
    out
}

/// Law: reconciliation never duplicates or renumbers — where the snapshot and
/// the fetched listing each carry unique ids, so does the merged snapshot,
/// and it holds exactly the union of the two id sets.
pub proof fn lemma_merge_preserves_unique_ids(
    old: Seq<EmailV>,
    fetched: Seq<EmailV>,
    pending: Seq<PendingChangeV>,
)
    requires
        unique_ids(old),
        unique_ids(fetched),
    ensures
        unique_ids(merge_spec(old, fetched, pending)),
        forall|id: Seq<char>|
            has_id(merge_spec(old, fetched, pending), id) == (has_id(old, id) || has_id(
                fetched,
                id,
            )),
{
    lemma_fresh_part_ids(old, fetched);
    let fp = fresh_part(old, fetched);
    let ro = reconciled_old(old, fetched, pending);
    let m = merge_spec(old, fetched, pending);
    assert(forall|i: int|
        0 <= i < old.len() ==> (#[trigger] ro[i]).id == old[i].id) by {
        assert forall|i: int| 0 <= i < old.len() implies (#[trigger] ro[i]).id == old[i].id by {
            if has_id(fetched, old[i].id) {
                let k = idx_of_id(fetched, old[i].id);
                lemma_idx_of_id_works(fetched, old[i].id);
                lemma_apply_pending_keeps_id(fetched[k], pending);
            }
        }
    }
    assert forall|i: int, j: int| 0 <= i < j < m.len() implies (#[trigger] m[i]).id
        != (#[trigger] m[j]).id by {
        if j < fp.len() {
        } else if i >= fp.len() {
            assert(m[i].id == old[i - fp.len()].id);
            assert(m[j].id == old[j - fp.len()].id);
        } else {
            assert(m[j].id == old[j - fp.len()].id);
            assert(has_id(old, m[j].id));
            assert(!has_id(old, fp[i].id));
        }
    }
    assert forall|id: Seq<char>| has_id(m, id) == (has_id(old, id) || has_id(fetched, id)) by {
        if has_id(m, id) {
            let i = choose|i: int| 0 <= i < m.len() && (#[trigger] m[i]).id == id;
            if i < fp.len() {
                assert(has_id(fetched, fp[i].id));
            } else {
                assert(m[i].id == old[i - fp.len()].id);
                assert(has_id(old, id));
            }
        }
        if has_id(old, id) {
            let i = choose|i: int| 0 <= i < old.len() && (#[trigger] old[i]).id == id;
            assert(m[fp.len() + i].id == old[i].id);
        } else if has_id(fetched, id) {
            lemma_fresh_part_covers(old, fetched, id);
            let i = choose|i: int| 0 <= i < fp.len() && (#[trigger] fp[i]).id == id;
            assert(m[i].id == id);
        }
    }
}

/// The ids of the fresh part: unique, drawn from the fetched listing, and
/// none of them already in the snapshot.
proof fn lemma_fresh_part_ids(old: Seq<EmailV>, fetched: Seq<EmailV>)
    requires
        unique_ids(fetched),
    ensures
        unique_ids(fresh_part(old, fetched)),
        forall|i: int|
            0 <= i < fresh_part(old, fetched).len() ==> !has_id(
                old,
                (#[trigger] fresh_part(old, fetched)[i]).id,
            ) && has_id(fetched, fresh_part(old, fetched)[i].id),
    decreases fetched.len(),
{
    if fetched.len() > 0 {
        let pre = fetched.drop_last();
        assert(unique_ids(pre)) by {
            assert(forall|i: int| 0 <= i < pre.len() ==> pre[i] == fetched[i]);
        }
        lemma_fresh_part_ids(old, pre);
        assert(forall|id: Seq<char>| has_id(pre, id) ==> has_id(fetched, id)) by {
            assert forall|id: Seq<char>| has_id(pre, id) implies has_id(fetched, id) by {
                let i = choose|i: int| 0 <= i < pre.len() && (#[trigger] pre[i]).id == id;
                assert(fetched[i].id == id);
            }
        }
        if !has_id(old, fetched.last().id) {
            let fp = fresh_part(old, fetched);
            let rest = fresh_part(old, pre);
            assert(fp == seq![fetched.last()] + rest);
            assert(!has_id(pre, fetched.last().id)) by {
                if has_id(pre, fetched.last().id) {
                    let i = choose|i: int|
                        0 <= i < pre.len() && (#[trigger] pre[i]).id == fetched.last().id;
                    assert(fetched[i].id == fetched[fetched.len() - 1].id);
                }
            }
            assert forall|i: int, j: int| 0 <= i < j < fp.len() implies (#[trigger] fp[i]).id
                != (#[trigger] fp[j]).id by {
                if i == 0 {
                    assert(fp[j] == rest[j - 1]);
                    assert(has_id(pre, rest[j - 1].id));
                }
            }
        }
    }
}

/// A fetched id missing from the snapshot appears in the fresh part.
proof fn lemma_fresh_part_covers(old: Seq<EmailV>, fetched: Seq<EmailV>, id: Seq<char>)
    requires
        has_id(fetched, id),
        !has_id(old, id),
    ensures
        has_id(fresh_part(old, fetched), id),
    decreases fetched.len(),
{
    let pre = fetched.drop_last();
    let fp = fresh_part(old, fetched);
    if fetched.last().id == id {
        assert(fp[0].id == id);
    } else {
        assert(has_id(pre, id)) by {
            let i = choose|i: int| 0 <= i < fetched.len() && (#[trigger] fetched[i]).id == id;
            assert(pre[i].id == id);
        }
        lemma_fresh_part_covers(old, pre, id);
        let rest = fresh_part(old, pre);
        let i = choose|i: int| 0 <= i < rest.len() && (#[trigger] rest[i]).id == id;
        if has_id(old, fetched.last().id) {
            assert(fp[i].id == id);
        } else {
            assert(fp[i + 1].id == id);
        }
    }
}

pub proof fn lemma_idx_of_id_works(s: Seq<EmailV>, id: Seq<char>)
    requires
        has_id(s, id),
    ensures
        0 <= idx_of_id(s, id) < s.len(),
        s[idx_of_id(s, id)].id == id,
{
    let i = choose|i: int| 0 <= i < s.len() && (#[trigger] s[i]).id == id;
    lemma_first_id_exists(s, id, i);
}

pub proof fn lemma_first_id_exists(s: Seq<EmailV>, id: Seq<char>, upto: int)
    requires
        0 <= upto < s.len(),
        s[upto].id == id,
    ensures
        0 <= idx_of_id(s, id) < s.len(),
        s[idx_of_id(s, id)].id == id,
    decreases upto,
{
    if forall|j: int| 0 <= j < upto ==> (#[trigger] s[j]).id != id {
        assert(0 <= upto < s.len() && s[upto].id == id && (forall|j: int|
            0 <= j < upto ==> s[j].id != id));
    } else {
        let w = choose|j: int| 0 <= j < upto && (#[trigger] s[j]).id == id;
        lemma_first_id_exists(s, id, w);
    }
}

proof fn lemma_apply_pending_keeps_id(e: EmailV, pending: Seq<PendingChangeV>)
    ensures
        apply_pending_email(e, pending).id == e.id,
    decreases pending.len(),
{
    if pending.len() > 0 {
        lemma_apply_pending_keeps_id(e, pending.drop_last());
    }
}

} // verus!

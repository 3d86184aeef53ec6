use vstd::prelude::*;
use crate::text::{text_of, copy_opt_text};
use crate::identity::{identity_fields, split_identity};
use crate::reconcile::{ReconcilePlan, plan_reconciliation, is_reconcile_plan};

verus! {

/// Size of one folder inside a user profile.
#[derive(Debug, Clone, PartialEq, Eq)]
pub struct PathInfo {
    pub path: String,
    pub size: u64,
}

/// One user profile as an endpoint reports it; times are Unix seconds.
#[derive(Debug, Clone)]
pub struct ProfileInfo {
    pub domain: Option<String>,
    pub username: Option<String>,
    pub sid: String,
    pub health_status: u8,
    pub roaming_configured: bool,
    pub roaming_path: Option<String>,
    pub roaming_preference: Option<bool>,
    pub last_use_time: i64,
    pub last_download_time: Option<i64>,
    pub last_upload_time: Option<i64>,
    pub status: u32,
    pub size: Option<u64>,
    pub path_size: Option<Vec<PathInfo>>,
}

/// A full profile snapshot of one endpoint.
#[derive(Debug, Clone)]
pub struct UserProfiles {
    pub profiles: Vec<ProfileInfo>,
}

/// An identity: the security identifier and its display fields.
#[derive(Debug, Clone, PartialEq, Eq)]
pub struct User {
    pub id: i32,
    pub sid: String,
    pub username: Option<String>,
    pub domain: Option<String>,
}

pub struct UserView {
    pub id: i32,
    pub sid: Seq<char>,
    pub username: Option<Seq<char>>,
    pub domain: Option<Seq<char>>,
}

impl View for User {
    type V = UserView;

    open spec fn view(&self) -> UserView {
        UserView { id: self.id, sid: self.sid@, username: text_of(self.username), domain: text_of(self.domain) }
    }
}

/// The membership of an identity on an endpoint.
#[derive(Debug, Clone, PartialEq, Eq)]
pub struct UserProfile {
    pub client_id: i32,
    pub user_id: i32,
    pub health_status: u8,
    pub roaming_configured: bool,
    pub roaming_path: Option<String>,
    pub roaming_preference: Option<bool>,
    pub last_use_time: i64,
    pub last_download_time: Option<i64>,
    pub last_upload_time: Option<i64>,
    pub status: u32,
    pub size: Option<u64>,
}

/// The size of one folder of a profile on an endpoint.
#[derive(Debug, Clone, PartialEq, Eq)]
pub struct UserProfilePaths {
    pub client_id: i32,
    pub user_id: i32,
    pub path: String,
    pub size: u64,
}

/// Why a snapshot was refused.
#[derive(Debug, Clone, Copy, PartialEq, Eq, Structural)]
pub enum ReconcileError {
    /// Two members of the snapshot share a security identifier.
    DuplicateMember,
    /// The snapshot names more new identities than there are ids left.
    IdsExhausted,
}

/// One cached (security identifier, identity id) pair. The cache is a list of
/// such pairs: Verus specifies `HashMap` lookups by `u64`-like keys, not by
/// `String`, so a map keyed by identifier would carry no provable contents.
/// Exclusive access comes from `&mut self`; sharing a store between threads
/// is the caller's lock.
struct CacheEntry {
    sid: String,
    id: i32,
}

pub struct ProfileStoreView {
    pub users: Seq<UserView>,
    pub profiles: Seq<UserProfile>,
    pub paths: Seq<UserProfilePaths>,
}

pub open spec fn sid_in(users: Seq<UserView>, sid: Seq<char>) -> bool {
    exists|i: int| 0 <= i < users.len() && users[i].sid == sid
}

/// The id of the identity with security identifier `sid`.
pub open spec fn user_id_of(users: Seq<UserView>, sid: Seq<char>) -> i32 {
    users[choose|i: int| 0 <= i < users.len() && users[i].sid == sid].id
}

pub open spec fn sids_unique(ps: Seq<ProfileInfo>) -> bool {
    forall|a: int, b: int| 0 <= a < b < ps.len() ==> (#[trigger] ps[a]).sid@ != (#[trigger] ps[b]).sid@
}

pub open spec fn display_of(u: UserView) -> (Option<Seq<char>>, Option<Seq<char>>) {
    (u.username, u.domain)
}

pub open spec fn reported_fields(p: ProfileInfo) -> (Option<Seq<char>>, Option<Seq<char>>) {
    identity_fields(text_of(p.username), text_of(p.domain))
}

/// Display fields of a known identity after member `p` is seen: refreshed
/// where the member carries a name.
pub open spec fn refreshed(old: (Option<Seq<char>>, Option<Seq<char>>), p: ProfileInfo) -> (Option<Seq<char>>, Option<Seq<char>>) {
    if p.username is Some {
        reported_fields(p)
    } else {
        old
    }
}

/// Identities after a snapshot: each known one keeps its id and identifier and
/// has its display fields refreshed by its member; each unseen identifier is
/// appended with the member's fields.
pub open spec fn users_reconciled(before: Seq<UserView>, ps: Seq<ProfileInfo>, after: Seq<UserView>) -> bool {
    &&& before.len() <= after.len()
    &&& forall|i: int| 0 <= i < before.len() ==> {
        &&& (#[trigger] after[i]).id == before[i].id
        &&& after[i].sid == before[i].sid
        &&& forall|k: int| 0 <= k < ps.len() && (#[trigger] ps[k]).sid@ == before[i].sid ==> display_of(after[i]) == refreshed(display_of(before[i]), ps[k])
        &&& (forall|k: int| 0 <= k < ps.len() ==> (#[trigger] ps[k]).sid@ != before[i].sid) ==> display_of(after[i]) == display_of(before[i])
    }
    &&& forall|i: int| before.len() <= i < after.len() ==> {
        &&& !sid_in(before, (#[trigger] after[i]).sid)
        &&& exists|k: int| 0 <= k < ps.len() && (#[trigger] ps[k]).sid@ == after[i].sid
        &&& forall|k: int| 0 <= k < ps.len() && (#[trigger] ps[k]).sid@ == after[i].sid ==> display_of(after[i]) == reported_fields(ps[k])
    }
    &&& forall|k: int| 0 <= k < ps.len() ==> sid_in(after, (#[trigger] ps[k]).sid@)
}

/// The stored membership row of member `p` for identity `user_id` on `client_id`.
pub open spec fn profile_row(client_id: i32, user_id: i32, p: ProfileInfo) -> UserProfile {
    UserProfile {
        client_id,
        user_id,
        health_status: p.health_status,
        roaming_configured: p.roaming_configured,
        roaming_path: p.roaming_path,
        roaming_preference: p.roaming_preference,
        last_use_time: p.last_use_time,
        last_download_time: p.last_download_time,
        last_upload_time: p.last_upload_time,
        status: p.status,
        size: p.size,
    }
}

/// The membership rows that do not belong to `client_id`, in order.
pub open spec fn rows_of_others(rows: Seq<UserProfile>, client_id: i32) -> Seq<UserProfile>
    decreases rows.len(),
{
    if rows.len() == 0 {
        Seq::empty()
    } else {
        let prev = rows_of_others(rows.drop_last(), client_id);
        if rows.last().client_id != client_id {
            prev.push(rows.last())
        } else {
            prev
        }
    }
}

/// The membership rows of `client_id` after a snapshot: one per member, in snapshot order.
pub open spec fn snapshot_rows(client_id: i32, users: Seq<UserView>, ps: Seq<ProfileInfo>) -> Seq<UserProfile> {
    Seq::new(ps.len(), |k: int| profile_row(client_id, user_id_of(users, ps[k].sid@), ps[k]))
}

/// The user ids of the rows of `client_id`, in order.
pub open spec fn member_ids(rows: Seq<UserProfile>, client_id: i32) -> Seq<i32>
    decreases rows.len(),
{
    if rows.len() == 0 {
        Seq::empty()
    } else {
        let prev = member_ids(rows.drop_last(), client_id);
        if rows.last().client_id == client_id {
            prev.push(rows.last().user_id)
        } else {
            prev
        }
    }
}

/// Identity ids are 1, 2, ... and security identifiers are unique.
pub open spec fn users_wf(users: Seq<UserView>) -> bool {
    &&& forall|i: int| 0 <= i < users.len() ==> #[trigger] users[i].id == i + 1
    &&& forall|i: int, j: int| 0 <= i < j < users.len() ==> (#[trigger] users[i]).sid != (#[trigger] users[j]).sid
}

/// Identities after one member `p` is seen, yielding its identity id `id`.
pub open spec fn member_applied(before: Seq<UserView>, p: ProfileInfo, id: i32, after: Seq<UserView>) -> bool {
    &&& sid_in(before, p.sid@) ==> {
        &&& 1 <= id <= before.len()
        &&& before[id - 1].sid == p.sid@
        &&& after == before.update(id - 1, UserView {
            username: refreshed(display_of(before[id - 1]), p).0,
            domain: refreshed(display_of(before[id - 1]), p).1,
            ..before[id - 1]
        })
    }
    &&& !sid_in(before, p.sid@) ==> {
        &&& id == before.len() + 1
        &&& after == before.push(UserView {
            id,
            sid: p.sid@,
            username: reported_fields(p).0,
            domain: reported_fields(p).1,
        })
    }
}

pub proof fn lemma_users_step(start: Seq<UserView>, ps: Seq<ProfileInfo>, k: int, uk: Seq<UserView>, id: i32, uk1: Seq<UserView>)
    requires
        0 <= k < ps.len(),
        sids_unique(ps),
        users_wf(uk),
        users_reconciled(start, ps.subrange(0, k), uk),
        member_applied(uk, ps[k], id, uk1),
    ensures
        users_wf(uk1),
        users_reconciled(start, ps.subrange(0, k + 1), uk1),
{
    let q = ps.subrange(0, k);
    let q1 = ps.subrange(0, k + 1);
    let p = ps[k];
    assert(q1[k] == p);
    assert forall|m: int| 0 <= m < k implies #[trigger] q1[m] == q[m] && q[m] == ps[m] by {}
    if sid_in(uk, p.sid@) {
        let j = id - 1;
        assert forall|i: int| 0 <= i < uk1.len() && i != j implies #[trigger] uk1[i] == uk[i] by {}
        assert forall|i: int| 0 <= i < uk.len() && i != j implies (#[trigger] uk[i]).sid != p.sid@ by {
            if i < j {
                assert(uk[i].sid != uk[j].sid);
            } else {
                assert(uk[j].sid != uk[i].sid);
            }
        }
        assert(users_wf(uk1)) by {
            assert forall|a: int, b: int| 0 <= a < b < uk1.len() implies (#[trigger] uk1[a]).sid != (#[trigger] uk1[b]).sid by {
                assert(uk1[a].sid == uk[a].sid && uk1[b].sid == uk[b].sid);
            }
            assert forall|a: int| 0 <= a < uk1.len() implies #[trigger] uk1[a].id == a + 1 by {
                assert(uk1[a].id == uk[a].id);
            }
        }
        assert(j < start.len()) by {
            if j >= start.len() {
                let u = uk[j];
                assert(exists|m: int| 0 <= m < q.len() && (#[trigger] q[m]).sid@ == uk[j].sid);
                let m = choose|m: int| 0 <= m < q.len() && (#[trigger] q[m]).sid@ == uk[j].sid;
                assert(q[m] == ps[m]);
                assert(ps[m].sid@ != ps[k].sid@);
            }
        }
        assert forall|i: int| 0 <= i < start.len() implies {
            &&& (#[trigger] uk1[i]).id == start[i].id
            &&& uk1[i].sid == start[i].sid
            &&& forall|m: int| 0 <= m < q1.len() && (#[trigger] q1[m]).sid@ == start[i].sid ==> display_of(uk1[i]) == refreshed(display_of(start[i]), q1[m])
            &&& (forall|m: int| 0 <= m < q1.len() ==> (#[trigger] q1[m]).sid@ != start[i].sid) ==> display_of(uk1[i]) == display_of(start[i])
        } by {
            if i == j {
                assert forall|m: int| 0 <= m < q.len() implies (#[trigger] q[m]).sid@ != start[i].sid by {
                    assert(ps[m].sid@ != ps[k].sid@);
                }
                assert forall|m: int| 0 <= m < q1.len() && (#[trigger] q1[m]).sid@ == start[i].sid implies m == k by {
                    if m < k {
                        assert(q[m].sid@ != start[i].sid);
                    }
                }
            } else {
                assert forall|m: int| 0 <= m < q1.len() && (#[trigger] q1[m]).sid@ == start[i].sid implies m < k by {}
                if forall|m: int| 0 <= m < q1.len() ==> (#[trigger] q1[m]).sid@ != start[i].sid {
                    assert forall|m: int| 0 <= m < q.len() implies (#[trigger] q[m]).sid@ != start[i].sid by {
                        assert(q1[m] == q[m]);
                    }
                }
            }
        }
        assert forall|i: int| start.len() <= i < uk1.len() implies {
            &&& !sid_in(start, (#[trigger] uk1[i]).sid)
            &&& exists|m: int| 0 <= m < q1.len() && (#[trigger] q1[m]).sid@ == uk1[i].sid
            &&& forall|m: int| 0 <= m < q1.len() && (#[trigger] q1[m]).sid@ == uk1[i].sid ==> display_of(uk1[i]) == reported_fields(q1[m])
        } by {
            assert(uk1[i] == uk[i]);
            let m0 = choose|m: int| 0 <= m < q.len() && (#[trigger] q[m]).sid@ == uk[i].sid;
            assert(q1[m0] == q[m0]);
        }
        assert forall|m: int| 0 <= m < q1.len() implies sid_in(uk1, (#[trigger] q1[m]).sid@) by {
            if m < k {
                assert(sid_in(uk, q[m].sid@));
                let a = choose|a: int| 0 <= a < uk.len() && uk[a].sid == q[m].sid@;
                assert(uk1[a].sid == uk[a].sid);
            } else {
                assert(uk1[j].sid == p.sid@);
            }
        }
    } else {
        let n = uk.len() as int;
        assert forall|i: int| 0 <= i < n implies #[trigger] uk1[i] == uk[i] by {}
        assert(users_wf(uk1)) by {
            assert forall|a: int, b: int| 0 <= a < b < uk1.len() implies (#[trigger] uk1[a]).sid != (#[trigger] uk1[b]).sid by {
                if b == n {
                    assert(uk[a].sid != p.sid@);
                }
            }
        }
        assert forall|i: int| 0 <= i < n implies (#[trigger] uk[i]).sid != p.sid@ by {}
        assert forall|i: int| 0 <= i < start.len() implies {
            &&& (#[trigger] uk1[i]).id == start[i].id
            &&& uk1[i].sid == start[i].sid
            &&& forall|m: int| 0 <= m < q1.len() && (#[trigger] q1[m]).sid@ == start[i].sid ==> display_of(uk1[i]) == refreshed(display_of(start[i]), q1[m])
            &&& (forall|m: int| 0 <= m < q1.len() ==> (#[trigger] q1[m]).sid@ != start[i].sid) ==> display_of(uk1[i]) == display_of(start[i])
        } by {
            assert forall|m: int| 0 <= m < q1.len() && (#[trigger] q1[m]).sid@ == start[i].sid implies m < k by {}
            if forall|m: int| 0 <= m < q1.len() ==> (#[trigger] q1[m]).sid@ != start[i].sid {
                assert forall|m: int| 0 <= m < q.len() implies (#[trigger] q[m]).sid@ != start[i].sid by {
                    assert(q1[m] == q[m]);
                }
            }
        }
        assert forall|i: int| start.len() <= i < uk1.len() implies {
            &&& !sid_in(start, (#[trigger] uk1[i]).sid)
            &&& exists|m: int| 0 <= m < q1.len() && (#[trigger] q1[m]).sid@ == uk1[i].sid
            &&& forall|m: int| 0 <= m < q1.len() && (#[trigger] q1[m]).sid@ == uk1[i].sid ==> display_of(uk1[i]) == reported_fields(q1[m])
        } by {
            if i < n {
                let m0 = choose|m: int| 0 <= m < q.len() && (#[trigger] q[m]).sid@ == uk[i].sid;
                assert(q1[m0] == q[m0]);
            } else {
                assert(q1[k].sid@ == uk1[i].sid);
                assert forall|m: int| 0 <= m < q1.len() && (#[trigger] q1[m]).sid@ == uk1[i].sid implies m == k by {
                    if m < k {
                        assert(ps[m].sid@ != ps[k].sid@);
                    }
                }
                if sid_in(start, uk1[i].sid) {
                    let a = choose|a: int| 0 <= a < start.len() && start[a].sid == uk1[i].sid;
                    assert(uk[a].sid == start[a].sid);
                }
            }
        }
        assert forall|m: int| 0 <= m < q1.len() implies sid_in(uk1, (#[trigger] q1[m]).sid@) by {
            if m < k {
                assert(sid_in(uk, q[m].sid@));
                let a = choose|a: int| 0 <= a < uk.len() && uk[a].sid == q[m].sid@;
                assert(uk1[a].sid == uk[a].sid);
            } else {
                assert(uk1[n].sid == p.sid@);
            }
        }
    }
}


pub open spec fn path_list(p: ProfileInfo) -> Seq<PathInfo> {
    match p.path_size {
        Some(l) => l@,
        None => Seq::empty(),
    }
}

pub open spec fn path_key_eq(r: UserProfilePaths, client_id: i32, user_id: i32, path: Seq<char>) -> bool {
    r.client_id == client_id && r.user_id == user_id && r.path@ == path
}

pub open spec fn path_key_in(rows: Seq<UserProfilePaths>, client_id: i32, user_id: i32, path: Seq<char>) -> bool {
    exists|i: int| 0 <= i < rows.len() && path_key_eq(rows[i], client_id, user_id, path)
}

/// Folder rows are unique by (endpoint, identity, path).
pub open spec fn paths_wf(rows: Seq<UserProfilePaths>) -> bool {
    forall|a: int, b: int| 0 <= a < b < rows.len() ==> !path_key_eq(#[trigger] rows[a], (#[trigger] rows[b]).client_id, rows[b].user_id, rows[b].path@)
}

pub open spec fn lists_path(l: Seq<PathInfo>, path: Seq<char>) -> bool {
    exists|j: int| 0 <= j < l.len() && l[j].path@ == path
}

/// `j` is the last entry of `l` for `path`.
pub open spec fn is_last_entry(l: Seq<PathInfo>, path: Seq<char>, j: int) -> bool {
    0 <= j < l.len() && l[j].path@ == path && forall|k: int| j < k < l.len() ==> l[k].path@ != path
}

/// The last entry of `l` for `path` gives `size`.
pub open spec fn last_size(l: Seq<PathInfo>, path: Seq<char>, size: u64) -> bool {
    exists|j: int| is_last_entry(l, path, j) && l[j].size == size
}

/// Folder rows after the entries `l` of identity `user_id` on `client_id` are
/// upserted: a listed folder takes the size of its last entry, a new one is
/// appended, and every other row is kept.
pub open spec fn member_paths_upserted(before: Seq<UserProfilePaths>, client_id: i32, user_id: i32, l: Seq<PathInfo>, after: Seq<UserProfilePaths>) -> bool {
    &&& before.len() <= after.len()
    &&& forall|i: int| 0 <= i < before.len() ==> {
        &&& (#[trigger] after[i]).client_id == before[i].client_id
        &&& after[i].user_id == before[i].user_id
        &&& after[i].path == before[i].path
        &&& (before[i].client_id == client_id && before[i].user_id == user_id && lists_path(l, before[i].path@))
            ==> last_size(l, before[i].path@, after[i].size)
        &&& !(before[i].client_id == client_id && before[i].user_id == user_id && lists_path(l, before[i].path@))
            ==> after[i] == before[i]
    }
    &&& forall|i: int| before.len() <= i < after.len() ==> {
        &&& (#[trigger] after[i]).client_id == client_id
        &&& after[i].user_id == user_id
        &&& !path_key_in(before, client_id, user_id, after[i].path@)
        &&& last_size(l, after[i].path@, after[i].size)
    }
    &&& forall|j: int| 0 <= j < l.len() ==> path_key_in(after, client_id, user_id, (#[trigger] l[j]).path@)
}

/// Folder rows after every member `m` of a snapshot of `client_id` has had
/// its entries upserted under identity `ids[m]`.
pub open spec fn paths_reconciled(before: Seq<UserProfilePaths>, client_id: i32, ids: Seq<i32>, ps: Seq<ProfileInfo>, after: Seq<UserProfilePaths>) -> bool {
    &&& before.len() <= after.len()
    &&& forall|i: int| 0 <= i < before.len() ==> {
        &&& (#[trigger] after[i]).client_id == before[i].client_id
        &&& after[i].user_id == before[i].user_id
        &&& after[i].path == before[i].path
        &&& forall|m: int| 0 <= m < ps.len() && before[i].client_id == client_id && before[i].user_id == #[trigger] ids[m]
            && lists_path(path_list(ps[m]), before[i].path@) ==> last_size(path_list(ps[m]), before[i].path@, after[i].size)
        &&& (forall|m: int| 0 <= m < ps.len() ==> !(before[i].client_id == client_id && before[i].user_id == #[trigger] ids[m]
            && lists_path(path_list(ps[m]), before[i].path@))) ==> after[i] == before[i]
    }
    &&& forall|i: int| before.len() <= i < after.len() ==> {
        &&& (#[trigger] after[i]).client_id == client_id
        &&& !path_key_in(before, client_id, after[i].user_id, after[i].path@)
        &&& exists|m: int| 0 <= m < ps.len() && after[i].user_id == #[trigger] ids[m] && last_size(path_list(ps[m]), after[i].path@, after[i].size)
    }
    &&& forall|m: int, j: int| 0 <= m < ps.len() && 0 <= j < path_list(ps[m]).len()
        ==> path_key_in(after, client_id, #[trigger] ids[m], (#[trigger] path_list(ps[m])[j]).path@)
}


/// Folder rows after one entry `e` of identity `user_id` on `client_id` is upserted.
pub open spec fn path_upserted(before: Seq<UserProfilePaths>, client_id: i32, user_id: i32, e: PathInfo, after: Seq<UserProfilePaths>) -> bool {
    &&& path_key_in(before, client_id, user_id, e.path@) ==> exists|i: int| 0 <= i < before.len()
        && path_key_eq(before[i], client_id, user_id, e.path@)
        && after == before.update(i, UserProfilePaths { size: e.size, ..before[i] })
    &&& !path_key_in(before, client_id, user_id, e.path@) ==> after == before.push(UserProfilePaths {
        client_id,
        user_id,
        path: e.path,
        size: e.size,
    })
}

pub proof fn lemma_last_size_extend(l: Seq<PathInfo>, j: int, path: Seq<char>, size: u64)
    requires
        0 <= j < l.len(),
    ensures
        path == l[j].path@ ==> (last_size(l.subrange(0, j + 1), path, size) <==> size == l[j].size),
        path != l[j].path@ ==> (last_size(l.subrange(0, j + 1), path, size) <==> last_size(l.subrange(0, j), path, size)),
        lists_path(l.subrange(0, j + 1), path) <==> (lists_path(l.subrange(0, j), path) || path == l[j].path@),
{
    let a = l.subrange(0, j);
    let b = l.subrange(0, j + 1);
    assert forall|k: int| 0 <= k < j implies #[trigger] b[k] == a[k] by {}
    assert(b[j] == l[j]);
    if path == l[j].path@ {
        assert(is_last_entry(b, path, j));
        if last_size(b, path, size) {
            let k = choose|k: int| is_last_entry(b, path, k) && b[k].size == size;
            assert(k == j);
        }
    } else {
        if last_size(b, path, size) {
            let k = choose|k: int| is_last_entry(b, path, k) && b[k].size == size;
            assert(is_last_entry(a, path, k));
        }
        if last_size(a, path, size) {
            let k = choose|k: int| is_last_entry(a, path, k) && a[k].size == size;
            assert(is_last_entry(b, path, k));
        }
    }
    if lists_path(a, path) {
        let k = choose|k: int| 0 <= k < a.len() && a[k].path@ == path;
        assert(b[k].path@ == path);
    }
    if lists_path(b, path) && path != l[j].path@ {
        let k = choose|k: int| 0 <= k < b.len() && b[k].path@ == path;
        assert(a[k].path@ == path);
    }
}

pub proof fn lemma_paths_entry_step(
    start: Seq<UserProfilePaths>,
    client_id: i32,
    user_id: i32,
    l: Seq<PathInfo>,
    j: int,
    t: Seq<UserProfilePaths>,
    t1: Seq<UserProfilePaths>,
)
    requires
        0 <= j < l.len(),
        paths_wf(t),
        member_paths_upserted(start, client_id, user_id, l.subrange(0, j), t),
        path_upserted(t, client_id, user_id, l[j], t1),
    ensures
        member_paths_upserted(start, client_id, user_id, l.subrange(0, j + 1), t1),
{
    let a = l.subrange(0, j);
    let b = l.subrange(0, j + 1);
    let e = l[j];
    assert forall|k: int| 0 <= k < j implies #[trigger] b[k] == a[k] by {}
    assert(b[j] == e);
    assert forall|path: Seq<char>, size: u64| true implies
        (path == e.path@ ==> (last_size(b, path, size) <==> size == e.size))
        && (path != e.path@ ==> (last_size(b, path, size) <==> last_size(a, path, size)))
        && (lists_path(b, path) <==> (lists_path(a, path) || path == e.path@)) by {
        lemma_last_size_extend(l, j, path, size);
    }
    if path_key_in(t, client_id, user_id, e.path@) {
        let x = choose|x: int| 0 <= x < t.len() && path_key_eq(t[x], client_id, user_id, e.path@)
            && t1 == t.update(x, UserProfilePaths { size: e.size, ..t[x] });
        assert forall|i: int| 0 <= i < t.len() && i != x implies #[trigger] t1[i] == t[i] by {}
        assert(t1[x].size == e.size && t1[x].path == t[x].path && t1[x].client_id == t[x].client_id && t1[x].user_id == t[x].user_id);
        assert forall|i: int| 0 <= i < start.len() implies {
            &&& (#[trigger] t1[i]).client_id == start[i].client_id
            &&& t1[i].user_id == start[i].user_id
            &&& t1[i].path == start[i].path
            &&& (start[i].client_id == client_id && start[i].user_id == user_id && lists_path(b, start[i].path@))
                ==> last_size(b, start[i].path@, t1[i].size)
            &&& !(start[i].client_id == client_id && start[i].user_id == user_id && lists_path(b, start[i].path@))
                ==> t1[i] == start[i]
        } by {
            let w = t[i];
            if i == x {
                assert(start[i].path@ == e.path@);
            } else {
                if start[i].client_id == client_id && start[i].user_id == user_id && start[i].path@ == e.path@ {
                    assert(path_key_eq(t[i], client_id, user_id, e.path@));
                    if i < x {
                        assert(!path_key_eq(t[i], t[x].client_id, t[x].user_id, t[x].path@));
                    } else {
                        assert(!path_key_eq(t[x], t[i].client_id, t[i].user_id, t[i].path@));
                    }
                }
            }
        }
        assert forall|i: int| start.len() <= i < t1.len() implies {
            &&& (#[trigger] t1[i]).client_id == client_id
            &&& t1[i].user_id == user_id
            &&& !path_key_in(start, client_id, user_id, t1[i].path@)
            &&& last_size(b, t1[i].path@, t1[i].size)
        } by {
            let w = t[i];
            if i != x && t[i].path@ == e.path@ {
                if i < x {
                    assert(!path_key_eq(t[i], t[x].client_id, t[x].user_id, t[x].path@));
                } else {
                    assert(!path_key_eq(t[x], t[i].client_id, t[i].user_id, t[i].path@));
                }
            }
        }
        assert forall|k: int| 0 <= k < b.len() implies path_key_in(t1, client_id, user_id, (#[trigger] b[k]).path@) by {
            if k < j {
                assert(path_key_in(t, client_id, user_id, a[k].path@));
                let y = choose|y: int| 0 <= y < t.len() && path_key_eq(t[y], client_id, user_id, a[k].path@);
                assert(path_key_eq(t1[y], client_id, user_id, a[k].path@));
            } else {
                assert(path_key_eq(t1[x], client_id, user_id, e.path@));
            }
        }
    } else {
        let n = t.len() as int;
        assert forall|i: int| 0 <= i < n implies #[trigger] t1[i] == t[i] by {}
        assert forall|i: int| 0 <= i < start.len() implies {
            &&& (#[trigger] t1[i]).client_id == start[i].client_id
            &&& t1[i].user_id == start[i].user_id
            &&& t1[i].path == start[i].path
            &&& (start[i].client_id == client_id && start[i].user_id == user_id && lists_path(b, start[i].path@))
                ==> last_size(b, start[i].path@, t1[i].size)
            &&& !(start[i].client_id == client_id && start[i].user_id == user_id && lists_path(b, start[i].path@))
                ==> t1[i] == start[i]
        } by {
            let w = t[i];
            if start[i].client_id == client_id && start[i].user_id == user_id && start[i].path@ == e.path@ {
                assert(path_key_eq(t[i], client_id, user_id, e.path@));
            }
        }
        assert forall|i: int| start.len() <= i < t1.len() implies {
            &&& (#[trigger] t1[i]).client_id == client_id
            &&& t1[i].user_id == user_id
            &&& !path_key_in(start, client_id, user_id, t1[i].path@)
            &&& last_size(b, t1[i].path@, t1[i].size)
        } by {
            if i < n {
                let w = t[i];
                if t[i].path@ == e.path@ {
                    assert(path_key_eq(t[i], client_id, user_id, e.path@));
                }
            } else {
                if path_key_in(start, client_id, user_id, e.path@) {
                    let y = choose|y: int| 0 <= y < start.len() && path_key_eq(start[y], client_id, user_id, e.path@);
                    let w = t[y];
                    assert(path_key_eq(t[y], client_id, user_id, e.path@));
                }
            }
        }
        assert forall|k: int| 0 <= k < b.len() implies path_key_in(t1, client_id, user_id, (#[trigger] b[k]).path@) by {
            if k < j {
                assert(path_key_in(t, client_id, user_id, a[k].path@));
                let y = choose|y: int| 0 <= y < t.len() && path_key_eq(t[y], client_id, user_id, a[k].path@);
                assert(path_key_eq(t1[y], client_id, user_id, a[k].path@));
            } else {
                assert(path_key_eq(t1[n], client_id, user_id, e.path@));
            }
        }
    }
}


pub open spec fn ids_distinct(ids: Seq<i32>) -> bool {
    forall|a: int, b: int| 0 <= a < b < ids.len() ==> #[trigger] ids[a] != #[trigger] ids[b]
}

pub proof fn lemma_paths_member_step(
    start: Seq<UserProfilePaths>,
    client_id: i32,
    ids: Seq<i32>,
    ps: Seq<ProfileInfo>,
    k: int,
    t: Seq<UserProfilePaths>,
    t1: Seq<UserProfilePaths>,
)
    requires
        0 <= k < ps.len(),
        ids.len() == ps.len(),
        ids_distinct(ids),
        paths_reconciled(start, client_id, ids, ps.subrange(0, k), t),
        member_paths_upserted(t, client_id, ids[k], path_list(ps[k]), t1),
    ensures
        paths_reconciled(start, client_id, ids, ps.subrange(0, k + 1), t1),
{
    let q = ps.subrange(0, k);
    let q1 = ps.subrange(0, k + 1);
    assert forall|m: int| 0 <= m < k implies #[trigger] q1[m] == q[m] by {}
    assert(q1[k] == ps[k]);
    assert forall|m: int| 0 <= m < k implies #[trigger] ids[m] != ids[k] by {}
    assert forall|i: int| 0 <= i < start.len() implies {
        &&& (#[trigger] t1[i]).client_id == start[i].client_id
        &&& t1[i].user_id == start[i].user_id
        &&& t1[i].path == start[i].path
        &&& forall|m: int| 0 <= m < q1.len() && start[i].client_id == client_id && start[i].user_id == #[trigger] ids[m]
            && lists_path(path_list(q1[m]), start[i].path@) ==> last_size(path_list(q1[m]), start[i].path@, t1[i].size)
        &&& (forall|m: int| 0 <= m < q1.len() ==> !(start[i].client_id == client_id && start[i].user_id == #[trigger] ids[m]
            && lists_path(path_list(q1[m]), start[i].path@))) ==> t1[i] == start[i]
    } by {
        let w = t[i];
        let w1 = t1[i];
        assert forall|m: int| 0 <= m < q1.len() && start[i].client_id == client_id && start[i].user_id == #[trigger] ids[m]
            && lists_path(path_list(q1[m]), start[i].path@) implies last_size(path_list(q1[m]), start[i].path@, t1[i].size) by {
            if m < k {
                assert(t1[i] == t[i]);
            }
        }
        if forall|m: int| 0 <= m < q1.len() ==> !(start[i].client_id == client_id && start[i].user_id == #[trigger] ids[m]
            && lists_path(path_list(q1[m]), start[i].path@)) {
            assert(!(start[i].client_id == client_id && start[i].user_id == ids[k] && lists_path(path_list(q1[k]), start[i].path@)));
            assert forall|m: int| 0 <= m < q.len() implies !(start[i].client_id == client_id && start[i].user_id == #[trigger] ids[m]
                && lists_path(path_list(q[m]), start[i].path@)) by {
                assert(q1[m] == q[m]);
            }
        }
    }
    assert forall|i: int| start.len() <= i < t1.len() implies {
        &&& (#[trigger] t1[i]).client_id == client_id
        &&& !path_key_in(start, client_id, t1[i].user_id, t1[i].path@)
        &&& exists|m: int| 0 <= m < q1.len() && t1[i].user_id == #[trigger] ids[m] && last_size(path_list(q1[m]), t1[i].path@, t1[i].size)
    } by {
        if i < t.len() {
            let w = t[i];
            let m0 = choose|m: int| 0 <= m < q.len() && t[i].user_id == #[trigger] ids[m] && last_size(path_list(q[m]), t[i].path@, t[i].size);
            assert(t1[i] == t[i]);
            assert(q1[m0] == q[m0]);
        } else {
            assert(t1[i].user_id == ids[k]);
            if path_key_in(start, client_id, t1[i].user_id, t1[i].path@) {
                let y = choose|y: int| 0 <= y < start.len() && path_key_eq(start[y], client_id, t1[i].user_id, t1[i].path@);
                let w = t[y];
                assert(path_key_eq(t[y], client_id, ids[k], t1[i].path@));
            }
        }
    }
    assert forall|m: int, j: int| 0 <= m < q1.len() && 0 <= j < path_list(q1[m]).len()
        implies path_key_in(t1, client_id, #[trigger] ids[m], (#[trigger] path_list(q1[m])[j]).path@) by {
        if m < k {
            assert(q1[m] == q[m]);
            assert(path_key_in(t, client_id, ids[m], path_list(q[m])[j].path@));
            let y = choose|y: int| 0 <= y < t.len() && path_key_eq(t[y], client_id, ids[m], path_list(q[m])[j].path@);
            let w = t1[y];
            assert(path_key_eq(t1[y], client_id, ids[m], path_list(q[m])[j].path@));
        } else {
            let pl = path_list(ps[k]);
            let x = pl[j];
            assert(path_key_in(t1, client_id, ids[k], pl[j].path@));
        }
    }
}

/// How many members of a snapshot name an identity the table lacks.
pub open spec fn new_sid_count(users: Seq<UserView>, ps: Seq<ProfileInfo>) -> nat
    decreases ps.len(),
{
    if ps.len() == 0 {
        0
    } else {
        new_sid_count(users, ps.drop_last()) + if sid_in(users, ps.last().sid@) { 0nat } else { 1nat }
    }
}

/// The new identities of a snapshot can all be given ids.
pub open spec fn ids_suffice(users: Seq<UserView>, ps: Seq<ProfileInfo>) -> bool {
    users.len() + new_sid_count(users, ps) < i32::MAX
}

pub proof fn lemma_new_sids_prefix(users: Seq<UserView>, ps: Seq<ProfileInfo>)
    ensures
        forall|j: int| 0 <= j <= ps.len() ==> #[trigger] new_sid_count(users, ps.subrange(0, j)) <= new_sid_count(users, ps),
    decreases ps.len(),
{
    assert(ps.subrange(0, ps.len() as int) =~= ps);
    if ps.len() > 0 {
        let d = ps.drop_last();
        lemma_new_sids_prefix(users, d);
        assert forall|j: int| 0 <= j <= ps.len() implies #[trigger] new_sid_count(users, ps.subrange(0, j)) <= new_sid_count(users, ps) by {
            if j < ps.len() {
                assert(ps.subrange(0, j) =~= d.subrange(0, j));
            }
        }
    }
}

pub proof fn lemma_new_sids_none(users: Seq<UserView>, ps: Seq<ProfileInfo>)
    requires
        forall|k: int| 0 <= k < ps.len() ==> sid_in(users, (#[trigger] ps[k]).sid@),
    ensures
        new_sid_count(users, ps) == 0,
    decreases ps.len(),
{
    if ps.len() > 0 {
        let d = ps.drop_last();
        assert forall|k: int| 0 <= k < d.len() implies sid_in(users, (#[trigger] d[k]).sid@) by {
            assert(d[k] == ps[k]);
        }
        lemma_new_sids_none(users, d);
        assert(ps[ps.len() - 1] == ps.last());
    }
}

/// Within a snapshot with unique identifiers, a member's identity is known
/// after the earlier members exactly where it was known before them.
pub proof fn lemma_seen_before(start: Seq<UserView>, ps: Seq<ProfileInfo>, k: int, uk: Seq<UserView>)
    requires
        0 <= k < ps.len(),
        sids_unique(ps),
        users_reconciled(start, ps.subrange(0, k), uk),
    ensures
        sid_in(uk, ps[k].sid@) == sid_in(start, ps[k].sid@),
{
    let q = ps.subrange(0, k);
    if sid_in(start, ps[k].sid@) {
        let i = choose|i: int| 0 <= i < start.len() && start[i].sid == ps[k].sid@;
        let u = uk[i];
    }
    if sid_in(uk, ps[k].sid@) {
        let i = choose|i: int| 0 <= i < uk.len() && uk[i].sid == ps[k].sid@;
        if i >= start.len() {
            let u = uk[i];
            let m = choose|m: int| 0 <= m < q.len() && (#[trigger] q[m]).sid@ == uk[i].sid;
            assert(q[m] == ps[m]);
            assert(ps[m].sid@ != ps[k].sid@);
        } else {
            let u = uk[i];
        }
    }
}

/// A snapshot that was applied can be pushed again: it names no new identity.
pub proof fn lemma_repeat_push_accepted(s0: ProfileStoreView, s1: ProfileStoreView, client_id: i32, ps: Seq<ProfileInfo>)
    requires
        ids_suffice(s0.users, ps),
        snapshot_applied(s0, client_id, ps, s1),
    ensures
        sids_unique(ps),
        new_sid_count(s1.users, ps) == 0,
        ids_suffice(s1.users, ps),
{
    lemma_new_sids_none(s1.users, ps);
}

/// The identity ids of the members of a snapshot, in snapshot order.
pub open spec fn incoming_ids(users: Seq<UserView>, ps: Seq<ProfileInfo>) -> Seq<i32> {
    Seq::new(ps.len(), |k: int| user_id_of(users, ps[k].sid@))
}

/// The store after a snapshot of `client_id` with members `ps` is applied.
pub open spec fn snapshot_applied(before: ProfileStoreView, client_id: i32, ps: Seq<ProfileInfo>, after: ProfileStoreView) -> bool {
    &&& sids_unique(ps)
    &&& after.users.len() == before.users.len() + new_sid_count(before.users, ps)
    &&& users_wf(after.users)
    &&& users_reconciled(before.users, ps, after.users)
    &&& after.profiles == rows_of_others(before.profiles, client_id) + snapshot_rows(client_id, after.users, ps)
    &&& paths_reconciled(before.paths, client_id, incoming_ids(after.users, ps), ps, after.paths)
}

pub proof fn lemma_others_drop_own(a: Seq<UserProfile>, b: Seq<UserProfile>, client_id: i32)
    requires
        forall|i: int| 0 <= i < b.len() ==> (#[trigger] b[i]).client_id == client_id,
    ensures
        rows_of_others(a + b, client_id) == rows_of_others(a, client_id),
    decreases b.len(),
{
    if b.len() == 0 {
        assert(a + b =~= a);
    } else {
        assert((a + b).drop_last() =~= a + b.drop_last());
        assert((a + b).last() == b.last());
        lemma_others_drop_own(a, b.drop_last(), client_id);
    }
}

pub proof fn lemma_others_idempotent(a: Seq<UserProfile>, client_id: i32)
    ensures
        rows_of_others(rows_of_others(a, client_id), client_id) == rows_of_others(a, client_id),
    decreases a.len(),
{
    if a.len() > 0 {
        lemma_others_idempotent(a.drop_last(), client_id);
        let prev = rows_of_others(a.drop_last(), client_id);
        if a.last().client_id != client_id {
            assert(prev.push(a.last()).drop_last() =~= prev);
        }
    }
}

pub proof fn lemma_users_reconciled_idempotent(u0: Seq<UserView>, u1: Seq<UserView>, u2: Seq<UserView>, ps: Seq<ProfileInfo>)
    requires
        users_reconciled(u0, ps, u1),
        users_reconciled(u1, ps, u2),
    ensures
        u2 == u1,
{
    if u2.len() > u1.len() {
        let i = u1.len() as int;
        let u = u2[i];
        let k = choose|k: int| 0 <= k < ps.len() && (#[trigger] ps[k]).sid@ == u2[i].sid;
        assert(sid_in(u1, ps[k].sid@));
    }
    assert forall|i: int| 0 <= i < u1.len() implies #[trigger] u2[i] == u1[i] by {
        let v = u2[i];
        if exists|k: int| 0 <= k < ps.len() && (#[trigger] ps[k]).sid@ == u1[i].sid {
            let k = choose|k: int| 0 <= k < ps.len() && (#[trigger] ps[k]).sid@ == u1[i].sid;
            if i >= u0.len() {
                let w = u1[i];
            } else {
                let w = u1[i];
            }
        }
    }
    assert(u2 =~= u1);
}

pub proof fn lemma_last_size_unique(l: Seq<PathInfo>, path: Seq<char>, a: u64, b: u64)
    requires
        last_size(l, path, a),
        last_size(l, path, b),
    ensures
        a == b,
{
    let ja = choose|j: int| is_last_entry(l, path, j) && l[j].size == a;
    let jb = choose|j: int| is_last_entry(l, path, j) && l[j].size == b;
    if ja < jb {
        assert(l[jb].path@ != path);
    } else if jb < ja {
        assert(l[ja].path@ != path);
    }
}

pub proof fn lemma_incoming_ids_distinct(users: Seq<UserView>, ps: Seq<ProfileInfo>)
    requires
        users_wf(users),
        sids_unique(ps),
        forall|k: int| 0 <= k < ps.len() ==> sid_in(users, (#[trigger] ps[k]).sid@),
    ensures
        ids_distinct(incoming_ids(users, ps)),
{
    let ids = incoming_ids(users, ps);
    assert forall|a: int, b: int| 0 <= a < b < ids.len() implies #[trigger] ids[a] != #[trigger] ids[b] by {
        assert(sid_in(users, ps[a].sid@));
        assert(sid_in(users, ps[b].sid@));
        let ia = choose|i: int| 0 <= i < users.len() && users[i].sid == ps[a].sid@;
        let ib = choose|i: int| 0 <= i < users.len() && users[i].sid == ps[b].sid@;
        assert(ps[a].sid@ != ps[b].sid@);
        assert(users[ia].id == ia + 1 && users[ib].id == ib + 1);
    }
}

pub proof fn lemma_paths_reconciled_idempotent(
    t0: Seq<UserProfilePaths>,
    t1: Seq<UserProfilePaths>,
    t2: Seq<UserProfilePaths>,
    client_id: i32,
    ids: Seq<i32>,
    ps: Seq<ProfileInfo>,
)
    requires
        ids.len() == ps.len(),
        ids_distinct(ids),
        paths_reconciled(t0, client_id, ids, ps, t1),
        paths_reconciled(t1, client_id, ids, ps, t2),
    ensures
        t2 == t1,
{
    if t2.len() > t1.len() {
        let i = t1.len() as int;
        let w = t2[i];
        let m = choose|m: int| 0 <= m < ps.len() && t2[i].user_id == #[trigger] ids[m] && last_size(path_list(ps[m]), t2[i].path@, t2[i].size);
        let l = path_list(ps[m]);
        let j = choose|j: int| is_last_entry(l, t2[i].path@, j) && l[j].size == t2[i].size;
        assert(path_key_in(t1, client_id, ids[m], l[j].path@));
    }
    assert forall|i: int| 0 <= i < t1.len() implies #[trigger] t2[i] == t1[i] by {
        let w2 = t2[i];
        if exists|m: int| 0 <= m < ps.len() && t1[i].client_id == client_id && t1[i].user_id == #[trigger] ids[m]
            && lists_path(path_list(ps[m]), t1[i].path@) {
            let m = choose|m: int| 0 <= m < ps.len() && t1[i].client_id == client_id && t1[i].user_id == #[trigger] ids[m]
                && lists_path(path_list(ps[m]), t1[i].path@);
            if i < t0.len() {
                let w1 = t1[i];
                lemma_last_size_unique(path_list(ps[m]), t1[i].path@, t1[i].size, t2[i].size);
            } else {
                let w1 = t1[i];
                let m1 = choose|m1: int| 0 <= m1 < ps.len() && t1[i].user_id == #[trigger] ids[m1] && last_size(path_list(ps[m1]), t1[i].path@, t1[i].size);
                if m1 != m {
                    if m1 < m {
                        assert(ids[m1] != ids[m]);
                    } else {
                        assert(ids[m] != ids[m1]);
                    }
                }
                lemma_last_size_unique(path_list(ps[m]), t1[i].path@, t1[i].size, t2[i].size);
            }
        }
    }
    assert(t2 =~= t1);
}

/// Pushing the same profile snapshot twice in a row leaves the store exactly
/// as the first push left it: no identity, membership or folder row is added,
/// dropped or changed by the second push.
pub proof fn lemma_snapshot_push_idempotent(
    s0: ProfileStoreView,
    s1: ProfileStoreView,
    s2: ProfileStoreView,
    client_id: i32,
    ps: Seq<ProfileInfo>,
)
    requires
        snapshot_applied(s0, client_id, ps, s1),
        snapshot_applied(s1, client_id, ps, s2),
    ensures
        s2 == s1,
{
    lemma_users_reconciled_idempotent(s0.users, s1.users, s2.users, ps);
    lemma_incoming_ids_distinct(s1.users, ps);
    lemma_paths_reconciled_idempotent(s0.paths, s1.paths, s2.paths, client_id, incoming_ids(s1.users, ps), ps);
    let built = snapshot_rows(client_id, s1.users, ps);
    lemma_others_drop_own(rows_of_others(s0.profiles, client_id), built, client_id);
    lemma_others_idempotent(s0.profiles, client_id);
}

pub fn copy_profile(p: &UserProfile) -> (r: UserProfile)
    ensures
        r == *p,
{
    UserProfile {
        client_id: p.client_id,
        user_id: p.user_id,
        health_status: p.health_status,
        roaming_configured: p.roaming_configured,
        roaming_path: copy_opt_text(&p.roaming_path),
        roaming_preference: p.roaming_preference,
        last_use_time: p.last_use_time,
        last_download_time: p.last_download_time,
        last_upload_time: p.last_upload_time,
        status: p.status,
        size: p.size,
    }
}

/// Whether two members of a snapshot share a security identifier.
pub fn has_duplicate_sid(ps: &Vec<ProfileInfo>) -> (r: bool)
    ensures
        r == !sids_unique(ps@),
{
    let mut b: usize = 0;
    while b < ps.len()
        invariant
            b <= ps@.len(),
            forall|x: int, y: int| 0 <= x < y < b ==> (#[trigger] ps@[x]).sid@ != (#[trigger] ps@[y]).sid@,
        decreases ps@.len() - b,
    {
        let mut a: usize = 0;
        while a < b
            invariant
                a <= b < ps@.len(),
                forall|x: int| 0 <= x < a ==> (#[trigger] ps@[x]).sid@ != ps@[b as int].sid@,
            decreases b - a,
        {
            if ps[a].sid == ps[b].sid {
                assert(ps@[a as int].sid@ == ps@[b as int].sid@);
                return true;
            }
            a = a + 1;
        }
        b = b + 1;
    }
    false
}

/// Identities, their cache, and the profile rows of every endpoint.
pub struct UserManager {
    users: Vec<User>,
    cache: Vec<CacheEntry>,
    profiles: Vec<UserProfile>,
    paths: Vec<UserProfilePaths>,
}

impl View for UserManager {
    type V = ProfileStoreView;

    closed spec fn view(&self) -> ProfileStoreView {
        ProfileStoreView {
            users: self.users@.map_values(|u: User| u@),
            profiles: self.profiles@,
            paths: self.paths@,
        }
    }
}

impl UserManager {
    /// Every cached pair names an existing identity.
    pub closed spec fn cache_consistent(&self) -> bool {
        forall|e: int| 0 <= e < self.cache@.len() ==> {
            &&& 1 <= (#[trigger] self.cache@[e]).id <= self.users@.len()
            &&& self.users@[self.cache@[e].id - 1].sid@ == self.cache@[e].sid@
        }
    }

    /// Identity ids are 1, 2, ... with unique identifiers, folder rows are
    /// unique by (endpoint, identity, path), and the cache agrees with the
    /// identity table.
    pub open spec fn wf(&self) -> bool {
        &&& users_wf(self@.users)
        &&& paths_wf(self@.paths)
        &&& self.cache_consistent()
    }

    pub fn new() -> (r: UserManager)
        ensures
            r.wf(),
            r@.users.len() == 0,
            r@.profiles.len() == 0,
            r@.paths.len() == 0,
    {
        let r = UserManager { users: Vec::new(), cache: Vec::new(), profiles: Vec::new(), paths: Vec::new() };
        assert(r@.users =~= Seq::<UserView>::empty());
        r
    }

    pub fn users(&self) -> (r: &Vec<User>)
        ensures
            r@.map_values(|u: User| u@) == self@.users,
    {
        &self.users
    }

    pub fn profiles(&self) -> (r: &Vec<UserProfile>)
        ensures
            r@ == self@.profiles,
    {
        &self.profiles
    }

    pub fn profile_paths(&self) -> (r: &Vec<UserProfilePaths>)
        ensures
            r@ == self@.paths,
    {
        &self.paths
    }

    /// The identity id of `sid`, from the cache or else from the identity
    /// table, which then fills the cache.
    pub fn get_user_id_for_sid(&mut self, sid: &String) -> (r: Option<i32>)
        requires
            old(self).wf(),
        ensures
            final(self).wf(),
            final(self)@ == old(self)@,
            r matches Some(id) ==> 1 <= id <= old(self)@.users.len() && old(self)@.users[id - 1].sid == sid@
                && old(self)@.users[id - 1].id == id,
            r is None ==> !sid_in(old(self)@.users, sid@),
    {
        let ghost start = self@;
        let mut e: usize = 0;
        while e < self.cache.len()
            invariant
                e <= self.cache@.len(),
                self.wf(),
                self@ == start,
                start == old(self)@,
            decreases self.cache@.len() - e,
        {
            if self.cache[e].sid == *sid {
                let id = self.cache[e].id;
                assert(self.users@[id - 1]@ == self@.users[id - 1]);
                return Some(id);
            }
            e = e + 1;
        }
        let mut i: usize = 0;
        while i < self.users.len()
            invariant
                i <= self.users@.len(),
                self.wf(),
                self@ == start,
                start == old(self)@,
                forall|j: int| 0 <= j < i ==> self@.users[j].sid != sid@,
            decreases self.users@.len() - i,
        {
            assert(self.users@[i as int]@ == self@.users[i as int]);
            if self.users[i].sid == *sid {
                let id = self.users[i].id;
                let ghost old_cache = self.cache@;
                self.cache.push(CacheEntry { sid: sid.clone(), id });
                assert(self@.users =~= start.users);
                assert forall|e: int| 0 <= e < self.cache@.len() implies {
                    &&& 1 <= (#[trigger] self.cache@[e]).id <= self.users@.len()
                    &&& self.users@[self.cache@[e].id - 1].sid@ == self.cache@[e].sid@
                } by {
                    if e < old_cache.len() {
                        assert(self.cache@[e] == old_cache[e]);
                    } else {
                        assert(self@.users[i as int].id == i + 1);
                    }
                }
                assert(self@.profiles == start.profiles && self@.paths == start.paths);
                assert(self@ == start);
                assert(start.users[i as int].sid == sid@);
                return Some(id);
            }
            i = i + 1;
        }
        None
    }

    /// The security identifier of identity `user_id`, filling the cache.
    pub fn get_sid_for_user_id(&mut self, user_id: i32) -> (r: Option<String>)
        requires
            old(self).wf(),
        ensures
            final(self).wf(),
            final(self)@ == old(self)@,
            1 <= user_id <= old(self)@.users.len() ==> (r matches Some(s) && s@ == old(self)@.users[user_id - 1].sid),
            !(1 <= user_id <= old(self)@.users.len()) ==> r is None,
    {
        if user_id < 1 || user_id as usize > self.users.len() {
            return None;
        }
        let mut e: usize = 0;
        while e < self.cache.len()
            invariant
                e <= self.cache@.len(),
                self.wf(),
                1 <= user_id <= self@.users.len(),
                self == old(self),
            decreases self.cache@.len() - e,
        {
            if self.cache[e].id == user_id {
                assert(self.users@[user_id - 1]@ == self@.users[user_id - 1]);
                return Some(self.cache[e].sid.clone());
            }
            e = e + 1;
        }
        let sid = self.users[(user_id - 1) as usize].sid.clone();
        assert(self.users@[user_id - 1]@ == self@.users[user_id - 1]);
        let ghost before = self@;
        let ghost old_cache = self.cache@;
        self.cache.push(CacheEntry { sid: sid.clone(), id: user_id });
        assert(self@.users =~= before.users);
        assert forall|e: int| 0 <= e < self.cache@.len() implies {
            &&& 1 <= (#[trigger] self.cache@[e]).id <= self.users@.len()
            &&& self.users@[self.cache@[e].id - 1].sid@ == self.cache@[e].sid@
        } by {
            if e < old_cache.len() {
                assert(self.cache@[e] == old_cache[e]);
            }
        }
        Some(sid)
    }

    /// Get-or-create of the identity of member `p`, refreshing its display
    /// fields where the member carries a name.
    fn resolve_member(&mut self, p: &ProfileInfo) -> (id: i32)
        requires
            old(self).wf(),
            old(self)@.users.len() < i32::MAX,
        ensures
            final(self).wf(),
            final(self)@.profiles == old(self)@.profiles,
            final(self)@.paths == old(self)@.paths,
            member_applied(old(self)@.users, *p, id, final(self)@.users),
    {
        let name = split_identity(&p.username, &p.domain);
        let ghost start = self@;
        let found = self.get_user_id_for_sid(&p.sid);
        let ghost old_users = self.users@;
        match found {
            Some(id) => {
                if p.username.is_some() {
                    let idx = (id - 1) as usize;
                    let row = User { id, sid: self.users[idx].sid.clone(), username: name.username, domain: name.domain };
                    assert(old_users[idx as int]@ == start.users[idx as int]);
                    self.users.set(idx, row);
                    assert(self@.users =~= start.users.update(id - 1, row@));
                    assert(self.users@ == old_users.update(idx as int, row));
                    assert forall|i: int| 0 <= i < self.users@.len() implies #[trigger] self.users@[i].sid == old_users[i].sid by {
                        if i == idx as int {
                            assert(self.users@[i] == row);
                        }
                    }
                    assert(users_wf(self@.users)) by {
                        assert forall|a: int, b: int| 0 <= a < b < self@.users.len() implies (#[trigger] self@.users[a]).sid != (#[trigger] self@.users[b]).sid by {
                            assert(self@.users[a].sid == start.users[a].sid && self@.users[b].sid == start.users[b].sid);
                        }
                        assert forall|a: int| 0 <= a < self@.users.len() implies #[trigger] self@.users[a].id == a + 1 by {
                            assert(self@.users[a].id == start.users[a].id);
                        }
                    }
                    assert(self.cache_consistent()) by {
                        assert forall|e: int| 0 <= e < self.cache@.len() implies {
                            &&& 1 <= (#[trigger] self.cache@[e]).id <= self.users@.len()
                            &&& self.users@[self.cache@[e].id - 1].sid@ == self.cache@[e].sid@
                        } by {
                            assert(self.users@[self.cache@[e].id - 1].sid == old_users[self.cache@[e].id - 1].sid);
                        }
                    }
                } else {
                    assert(start.users =~= start.users.update(id - 1, UserView {
                        username: refreshed(display_of(start.users[id - 1]), *p).0,
                        domain: refreshed(display_of(start.users[id - 1]), *p).1,
                        ..start.users[id - 1]
                    }));
                }
                assert(sid_in(start.users, p.sid@));
                id
            },
            None => {
                let id = (self.users.len() + 1) as i32;
                let row = User { id, sid: p.sid.clone(), username: name.username, domain: name.domain };
                self.users.push(row);
                assert(self@.users =~= start.users.push(row@));
                assert(users_wf(self@.users)) by {
                    assert forall|a: int, b: int| 0 <= a < b < self@.users.len() implies (#[trigger] self@.users[a]).sid != (#[trigger] self@.users[b]).sid by {
                        if b == start.users.len() {
                            assert(self@.users[a] == start.users[a]);
                        } else {
                            assert(self@.users[a] == start.users[a] && self@.users[b] == start.users[b]);
                        }
                    }
                    assert forall|a: int| 0 <= a < self@.users.len() implies #[trigger] self@.users[a].id == a + 1 by {
                        if a < start.users.len() {
                            assert(self@.users[a] == start.users[a]);
                        }
                    }
                }
                assert(self.cache_consistent()) by {
                    assert forall|e: int| 0 <= e < self.cache@.len() implies {
                        &&& 1 <= (#[trigger] self.cache@[e]).id <= self.users@.len()
                        &&& self.users@[self.cache@[e].id - 1].sid@ == self.cache@[e].sid@
                    } by {
                        assert(self.users@[self.cache@[e].id - 1] == old_users[self.cache@[e].id - 1]) by {
                            assert(self.users@ == old_users.push(row));
                        }
                    }
                }
                id
            },
        }
    }

    /// Applies a full profile snapshot of endpoint `client_id`: every member's
    /// identity is resolved or created, stored members missing from the
    /// snapshot are deleted, new ones inserted and known ones updated, and the
    /// folder sizes of every member are upserted. A snapshot that lists a
    /// security identifier twice, or names more new identities than there are
    /// ids left, is refused and changes nothing.
    pub fn update_profiles(&mut self, client_id: i32, snapshot: &UserProfiles) -> (r: Result<ReconcilePlan, ReconcileError>)
        requires
            old(self).wf(),
        ensures
            final(self).wf(),
            !sids_unique(snapshot.profiles@) ==> r == Err::<ReconcilePlan, ReconcileError>(ReconcileError::DuplicateMember)
                && final(self)@ == old(self)@,
            sids_unique(snapshot.profiles@) && !ids_suffice(old(self)@.users, snapshot.profiles@)
                ==> r == Err::<ReconcilePlan, ReconcileError>(ReconcileError::IdsExhausted) && final(self)@ == old(self)@,
            sids_unique(snapshot.profiles@) && ids_suffice(old(self)@.users, snapshot.profiles@) ==> (r matches Ok(plan)
                && snapshot_applied(old(self)@, client_id, snapshot.profiles@, final(self)@)
                && is_reconcile_plan(member_ids(old(self)@.profiles, client_id),
                    incoming_ids(final(self)@.users, snapshot.profiles@), plan)),
    {
        let ps = &snapshot.profiles;
        if has_duplicate_sid(ps) {
            return Err(ReconcileError::DuplicateMember);
        }
        let ghost start = self@;
        let unseen = self.count_new_sids(ps);
        if self.users.len() >= i32::MAX as usize || unseen >= i32::MAX as usize - self.users.len() {
            return Err(ReconcileError::IdsExhausted);
        }
        proof {
            lemma_new_sids_prefix(start.users, ps@);
        }
        let existing = self.member_ids_of(client_id);
        let mut ids: Vec<i32> = Vec::new();
        let mut k: usize = 0;
        assert(users_reconciled(start.users, ps@.subrange(0, 0), start.users));
        while k < ps.len()
            invariant
                k <= ps@.len(),
                sids_unique(ps@),
                self.wf(),
                self@.profiles == start.profiles,
                self@.paths == start.paths,
                self@.users.len() == start.users.len() + new_sid_count(start.users, ps@.subrange(0, k as int)),
                new_sid_count(start.users, ps@.subrange(0, k as int)) <= new_sid_count(start.users, ps@),
                forall|j: int| 0 <= j <= ps@.len() ==> #[trigger] new_sid_count(start.users, ps@.subrange(0, j)) <= new_sid_count(start.users, ps@),
                ids_suffice(start.users, ps@),
                users_reconciled(start.users, ps@.subrange(0, k as int), self@.users),
                ids@.len() == k,
                forall|m: int| 0 <= m < k ==> 1 <= #[trigger] ids@[m] <= self@.users.len()
                    && self@.users[ids@[m] - 1].sid == ps@[m].sid@,
            decreases ps@.len() - k,
        {
            let ghost uk = self@.users;
            let id = self.resolve_member(&ps[k]);
            proof {
                lemma_seen_before(start.users, ps@, k as int, uk);
                assert(ps@.subrange(0, k + 1).drop_last() =~= ps@.subrange(0, k as int));
                assert(ps@.subrange(0, k + 1).last() == ps@[k as int]);
                lemma_users_step(start.users, ps@, k as int, uk, id, self@.users);
                assert forall|m: int| 0 <= m < k implies self@.users[ids@[m] - 1].sid == uk[ids@[m] - 1].sid by {}
            }
            ids.push(id);
            k = k + 1;
        }
        assert(ps@.subrange(0, ps@.len() as int) =~= ps@);
        let ghost users = self@.users;
        proof {
            assert forall|m: int| 0 <= m < ps@.len() implies #[trigger] ids@[m] == user_id_of(users, ps@[m].sid@) by {
                let i = choose|i: int| 0 <= i < users.len() && users[i].sid == ps@[m].sid@;
                let j = ids@[m] - 1;
                if i < j {
                    assert(users[i].sid != users[j].sid);
                } else if j < i {
                    assert(users[j].sid != users[i].sid);
                }
            }
            assert(ids@ =~= incoming_ids(users, ps@));
        }
        let plan = plan_reconciliation(&existing, &ids);
        let mut rows: Vec<UserProfile> = Vec::new();
        let mut i: usize = 0;
        while i < self.profiles.len()
            invariant
                i <= self.profiles@.len(),
                self@.profiles == start.profiles,
                rows@ == rows_of_others(start.profiles.subrange(0, i as int), client_id),
            decreases self.profiles@.len() - i,
        {
            assert(start.profiles.subrange(0, i + 1).drop_last() =~= start.profiles.subrange(0, i as int));
            if self.profiles[i].client_id != client_id {
                rows.push(copy_profile(&self.profiles[i]));
            }
            i = i + 1;
        }
        assert(start.profiles.subrange(0, start.profiles.len() as int) =~= start.profiles);
        let ghost others = rows@;
        let mut m: usize = 0;
        while m < ps.len()
            invariant
                m <= ps@.len(),
                ids@ == incoming_ids(users, ps@),
                rows@ == others + snapshot_rows(client_id, users, ps@).subrange(0, m as int),
            decreases ps@.len() - m,
        {
            let p = &ps[m];
            rows.push(UserProfile {
                client_id,
                user_id: ids[m],
                health_status: p.health_status,
                roaming_configured: p.roaming_configured,
                roaming_path: copy_opt_text(&p.roaming_path),
                roaming_preference: p.roaming_preference,
                last_use_time: p.last_use_time,
                last_download_time: p.last_download_time,
                last_upload_time: p.last_upload_time,
                status: p.status,
                size: p.size,
            });
            m = m + 1;
            assert(rows@ =~= others + snapshot_rows(client_id, users, ps@).subrange(0, m as int));
        }
        assert(snapshot_rows(client_id, users, ps@).subrange(0, ps@.len() as int) =~= snapshot_rows(client_id, users, ps@));
        self.profiles = rows;
        let ghost final_rows = self@.profiles;
        proof {
            assert forall|a: int, b: int| 0 <= a < b < ids@.len() implies #[trigger] ids@[a] != #[trigger] ids@[b] by {
                assert(users[ids@[a] - 1].sid == ps@[a].sid@);
                assert(users[ids@[b] - 1].sid == ps@[b].sid@);
                assert(ps@[a].sid@ != ps@[b].sid@);
            }
        }
        let mut m: usize = 0;
        assert(paths_reconciled(start.paths, client_id, ids@, ps@.subrange(0, 0), self@.paths));
        while m < ps.len()
            invariant
                m <= ps@.len(),
                self.wf(),
                self@.users == users,
                self@.profiles == final_rows,
                ids@ == incoming_ids(users, ps@),
                ids_distinct(ids@),
                paths_reconciled(start.paths, client_id, ids@, ps@.subrange(0, m as int), self@.paths),
            decreases ps@.len() - m,
        {
            let ghost t = self@.paths;
            self.upsert_member_paths(client_id, ids[m], &ps[m]);
            proof {
                lemma_paths_member_step(start.paths, client_id, ids@, ps@, m as int, t, self@.paths);
            }
            m = m + 1;
        }
        Ok(plan)
    }

    fn upsert_path(&mut self, client_id: i32, user_id: i32, e: &PathInfo)
        requires
            old(self).wf(),
        ensures
            final(self).wf(),
            final(self)@.users == old(self)@.users,
            final(self)@.profiles == old(self)@.profiles,
            path_upserted(old(self)@.paths, client_id, user_id, *e, final(self)@.paths),
    {
        let ghost before = self@;
        let mut i: usize = 0;
        while i < self.paths.len()
            invariant
                i <= self.paths@.len(),
                self@ == before,
                before == old(self)@,
                self.wf(),
                forall|j: int| 0 <= j < i ==> !path_key_eq(self.paths@[j], client_id, user_id, e.path@),
            decreases self.paths@.len() - i,
        {
            if self.paths[i].client_id == client_id && self.paths[i].user_id == user_id && self.paths[i].path == e.path {
                let row = UserProfilePaths {
                    client_id,
                    user_id,
                    path: self.paths[i].path.clone(),
                    size: e.size,
                };
                let ghost old_cache = self.cache@;
                let ghost old_users = self.users@;
                self.paths.set(i, row);
                assert(self.cache@ == old_cache && self.users@ == old_users);
                assert(self@.paths =~= before.paths.update(i as int, UserProfilePaths { size: e.size, ..before.paths[i as int] }));
                assert(paths_wf(self@.paths)) by {
                    assert forall|a: int, b: int| 0 <= a < b < self@.paths.len() implies !path_key_eq(#[trigger] self@.paths[a], (#[trigger] self@.paths[b]).client_id, self@.paths[b].user_id, self@.paths[b].path@) by {
                        assert(path_key_eq(self@.paths[a], before.paths[a].client_id, before.paths[a].user_id, before.paths[a].path@));
                        assert(path_key_eq(self@.paths[b], before.paths[b].client_id, before.paths[b].user_id, before.paths[b].path@));
                    }
                }
                assert(self@.users == before.users);
                assert(path_key_eq(before.paths[i as int], client_id, user_id, e.path@));
                return;
            }
            i = i + 1;
        }
        self.paths.push(UserProfilePaths { client_id, user_id, path: e.path.clone(), size: e.size });
        assert(paths_wf(self@.paths)) by {
            assert forall|a: int, b: int| 0 <= a < b < self@.paths.len() implies !path_key_eq(#[trigger] self@.paths[a], (#[trigger] self@.paths[b]).client_id, self@.paths[b].user_id, self@.paths[b].path@) by {
                assert(self@.paths[a] == before.paths[a]);
            }
        }
        assert(self@.users == before.users);
    }

    fn upsert_member_paths(&mut self, client_id: i32, user_id: i32, p: &ProfileInfo)
        requires
            old(self).wf(),
        ensures
            final(self).wf(),
            final(self)@.users == old(self)@.users,
            final(self)@.profiles == old(self)@.profiles,
            member_paths_upserted(old(self)@.paths, client_id, user_id, path_list(*p), final(self)@.paths),
    {
        let ghost start = self@;
        match &p.path_size {
            None => {
                assert forall|i: int| 0 <= i < start.paths.len() implies !lists_path(path_list(*p), #[trigger] start.paths[i].path@) by {}
            },
            Some(l) => {
                let mut j: usize = 0;
                assert(member_paths_upserted(start.paths, client_id, user_id, l@.subrange(0, 0), self@.paths));
                while j < l.len()
                    invariant
                        j <= l@.len(),
                        path_list(*p) == l@,
                        self.wf(),
                        self@.users == start.users,
                        self@.profiles == start.profiles,
                        member_paths_upserted(start.paths, client_id, user_id, l@.subrange(0, j as int), self@.paths),
                    decreases l@.len() - j,
                {
                    let ghost t = self@.paths;
                    self.upsert_path(client_id, user_id, &l[j]);
                    proof {
                        lemma_paths_entry_step(start.paths, client_id, user_id, l@, j as int, t, self@.paths);
                    }
                    j = j + 1;
                }
                assert(l@.subrange(0, l@.len() as int) =~= l@);
            },
        }
    }

    fn count_new_sids(&mut self, ps: &Vec<ProfileInfo>) -> (r: usize)
        requires
            old(self).wf(),
        ensures
            final(self).wf(),
            final(self)@ == old(self)@,
            r == new_sid_count(old(self)@.users, ps@),
    {
        let ghost start = self@;
        let mut n: usize = 0;
        let mut k: usize = 0;
        while k < ps.len()
            invariant
                k <= ps@.len(),
                self.wf(),
                self@ == start,
                n == new_sid_count(start.users, ps@.subrange(0, k as int)),
                n <= k,
            decreases ps@.len() - k,
        {
            assert(ps@.subrange(0, k + 1).drop_last() =~= ps@.subrange(0, k as int));
            assert(ps@.subrange(0, k + 1).last() == ps@[k as int]);
            if self.get_user_id_for_sid(&ps[k].sid).is_none() {
                n = n + 1;
            }
            k = k + 1;
        }
        assert(ps@.subrange(0, ps@.len() as int) =~= ps@);
        n
    }

    fn member_ids_of(&self, client_id: i32) -> (r: Vec<i32>)
        ensures
            r@ == member_ids(self@.profiles, client_id),
    {
        let mut out: Vec<i32> = Vec::new();
        let mut i: usize = 0;
        while i < self.profiles.len()
            invariant
                i <= self@.profiles.len(),
                self@.profiles == self.profiles@,
                out@ == member_ids(self@.profiles.subrange(0, i as int), client_id),
            decreases self@.profiles.len() - i,
        {
            assert(self@.profiles.subrange(0, i + 1).drop_last() =~= self@.profiles.subrange(0, i as int));
            if self.profiles[i].client_id == client_id {
                out.push(self.profiles[i].user_id);
            }
            i = i + 1;
        }
        assert(self@.profiles.subrange(0, self@.profiles.len() as int) =~= self@.profiles);
        out
    }

    /// Drops every cached pair.
    pub fn invalidate_cache(&mut self)
        requires
            old(self).wf(),
        ensures
            final(self).wf(),
            final(self)@ == old(self)@,
    {
        self.cache = Vec::new();
    }
}

} // verus!

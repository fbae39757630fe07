//! In-memory identity store: principals, missions and crew memberships.
//!
//! The store enforces the rules the service relies on: usernames are unique,
//! a mission's status may only be changed by its chief along the lifecycle
//! edges, soft-deleted missions are excluded from every listing, and a
//! mission is visible to a principal only as its chief or as a crew member.

use vstd::prelude::*;

use crate::errors::CoreError;
use crate::missions::{allowed_transition, MissionStatus};

verus! {

/// A registered principal as persisted by the store.
pub struct BrawlerRecord {
    pub id: i32,
    pub username: String,
    pub display_name: String,
    pub password_hash: String,
    pub avatar_url: Option<String>,
}

/// A mission row: owning chief, lifecycle status and a soft-delete marker.
#[derive(Clone, Copy)]
pub struct MissionRecord {
    pub id: i32,
    pub chief_id: i32,
    pub status: MissionStatus,
    pub deleted: bool,
}

/// Participation of a non-owning principal in a mission.
#[derive(Clone, Copy)]
pub struct CrewMembership {
    pub mission_id: i32,
    pub brawler_id: i32,
}

/// Some row already carries this username.
pub open spec fn username_taken(brawlers: Seq<BrawlerRecord>, username: Seq<char>) -> bool {
    exists|i: int| 0 <= i < brawlers.len() && (#[trigger] brawlers[i]).username@ == username
}

/// The principal appears in the mission's crew-membership rows.
pub open spec fn is_crew_member(crews: Seq<CrewMembership>, brawler_id: i32, mission_id: i32) -> bool {
    exists|i: int|
        0 <= i < crews.len() && (#[trigger] crews[i]).brawler_id == brawler_id
            && crews[i].mission_id == mission_id
}

/// Number of crew-membership rows referencing the mission.
pub open spec fn spec_crew_count(crews: Seq<CrewMembership>, mission_id: i32) -> nat
    decreases crews.len(),
{
    if crews.len() == 0 {
        0
    } else {
        spec_crew_count(crews.drop_last(), mission_id) + if crews.last().mission_id == mission_id {
            1nat
        } else {
            0nat
        }
    }
}

/// A mission is visible to a principal as its chief or as a crew member;
/// soft-deleted missions are visible to nobody.
pub open spec fn mission_visible(m: MissionRecord, crews: Seq<CrewMembership>, brawler_id: i32) -> bool {
    !m.deleted && (m.chief_id == brawler_id || is_crew_member(crews, brawler_id, m.id))
}

/// The mission rows a principal may see, in storage order.
pub open spec fn visible_missions(
    missions: Seq<MissionRecord>,
    crews: Seq<CrewMembership>,
    brawler_id: i32,
) -> Seq<MissionRecord> {
    missions.filter(|m: MissionRecord| mission_visible(m, crews, brawler_id))
}

/// Durable state of the service. Usernames and identifiers of principals are
/// unique, and mission identifiers are unique.
pub struct IdentityStore {
    pub brawlers: Vec<BrawlerRecord>,
    pub missions: Vec<MissionRecord>,
    pub crews: Vec<CrewMembership>,
    pub next_brawler_id: i32,
}

impl IdentityStore {
    pub open spec fn wf(self) -> bool {
        &&& 1 <= self.next_brawler_id
        &&& forall|i: int, j: int|
            0 <= i < j < self.brawlers@.len() ==> (#[trigger] self.brawlers@[i]).username@ != (
            #[trigger] self.brawlers@[j]).username@
        &&& forall|i: int, j: int|
            0 <= i < j < self.brawlers@.len() ==> (#[trigger] self.brawlers@[i]).id != (
            #[trigger] self.brawlers@[j]).id
        &&& forall|i: int|
            0 <= i < self.brawlers@.len() ==> (#[trigger] self.brawlers@[i]).id
                < self.next_brawler_id
        &&& forall|i: int, j: int|
            0 <= i < j < self.missions@.len() ==> (#[trigger] self.missions@[i]).id != (
            #[trigger] self.missions@[j]).id
    }

    /// A live mission with this identifier has this chief and may take the
    /// requested lifecycle step.
    pub open spec fn can_transition(
        self,
        mission_id: i32,
        chief_id: i32,
        target: MissionStatus,
    ) -> bool {
        exists|i: int|
            0 <= i < self.missions@.len() && (#[trigger] self.missions@[i]).id == mission_id
                && !self.missions@[i].deleted && self.missions@[i].chief_id == chief_id
                && allowed_transition(self.missions@[i].status, target)
    }

    pub fn new() -> (r: Self)
        ensures
            r.wf(),
            r.brawlers@.len() == 0,
            r.missions@.len() == 0,
            r.crews@.len() == 0,
            r.next_brawler_id == 1,
    {
        Self { brawlers: Vec::new(), missions: Vec::new(), crews: Vec::new(), next_brawler_id: 1 }
    }

    /// Whether a principal with this username is already registered.
    pub fn has_username(&self, username: &String) -> (r: bool)
        ensures
            r == username_taken(self.brawlers@, username@),
    {
        let n = self.brawlers.len();
        let mut i: usize = 0;
        while i < n
            invariant
                n == self.brawlers@.len(),
                0 <= i <= n,
                forall|j: int| 0 <= j < i ==> (#[trigger] self.brawlers@[j]).username@ != username@,
            decreases n - i,
        {
            if self.brawlers[i].username == *username {
                return true;
            }
            i = i + 1;
        }
        false
    }

    /// Persist a new principal. Fails with `Conflict` exactly when the
    /// username is already taken; otherwise appends a record carrying the
    /// fresh identifier and returns that identifier.
    pub fn insert_principal(
        &mut self,
        username: String,
        display_name: String,
        password_hash: String,
    ) -> (r: Result<i32, CoreError>)
        requires
            old(self).wf(),
            old(self).next_brawler_id < i32::MAX,
        ensures
            final(self).wf(),
            final(self).missions == old(self).missions,
            final(self).crews == old(self).crews,
            match r {
                Ok(id) => {
                    &&& !username_taken(old(self).brawlers@, username@)
                    &&& id == old(self).next_brawler_id
                    &&& final(self).next_brawler_id == old(self).next_brawler_id + 1
                    &&& final(self).brawlers@.len() == old(self).brawlers@.len() + 1
                    &&& final(self).brawlers@.subrange(0, old(self).brawlers@.len() as int)
                        == old(self).brawlers@
                    &&& final(self).brawlers@.last().id == id
                    &&& final(self).brawlers@.last().username == username
                    &&& final(self).brawlers@.last().display_name == display_name
                    &&& final(self).brawlers@.last().password_hash == password_hash
                    &&& final(self).brawlers@.last().avatar_url is None
                },
                Err(e) => {
                    &&& e == CoreError::Conflict
                    &&& username_taken(old(self).brawlers@, username@)
                    &&& *final(self) == *old(self)
                },
            },
    {
        if self.has_username(&username) {
            return Err(CoreError::Conflict);
        }
        let id = self.next_brawler_id;
        self.next_brawler_id = id + 1;
        self.brawlers.push(
            BrawlerRecord { id, username, display_name, password_hash, avatar_url: None },
        );
        proof {
            assert(self.brawlers@.subrange(0, old(self).brawlers@.len() as int) =~= old(
                self,
            ).brawlers@);
        }
        Ok(id)
    }

    /// Look a principal up by username. Returns the unique matching record,
    /// or `None` when no row carries the username.
    pub fn find_principal_by_username(&self, username: &String) -> (r: Option<&BrawlerRecord>)
        ensures
            match r {
                Some(b) => {
                    &&& b.username@ == username@
                    &&& exists|i: int|
                        0 <= i < self.brawlers@.len() && #[trigger] self.brawlers@[i] == *b
                },
                None => !username_taken(self.brawlers@, username@),
            },
    {
        let n = self.brawlers.len();
        let mut i: usize = 0;
        while i < n
            invariant
                n == self.brawlers@.len(),
                0 <= i <= n,
                forall|j: int| 0 <= j < i ==> (#[trigger] self.brawlers@[j]).username@ != username@,
            decreases n - i,
        {
            if self.brawlers[i].username == *username {
                return Some(&self.brawlers[i]);
            }
            i = i + 1;
        }
        None
    }

    /// Associate an avatar reference with the principal, if one carries the
    /// identifier, and hand the reference back either way.
    pub fn update_avatar(&mut self, id: i32, avatar_url: String) -> (r: String)
        requires
            old(self).wf(),
        ensures
            final(self).wf(),
            r == avatar_url,
            final(self).missions == old(self).missions,
            final(self).crews == old(self).crews,
            final(self).next_brawler_id == old(self).next_brawler_id,
            final(self).brawlers@.len() == old(self).brawlers@.len(),
            forall|i: int|
                0 <= i < old(self).brawlers@.len() ==> {
                    let ob = old(self).brawlers@[i];
                    let nb = #[trigger] final(self).brawlers@[i];
                    &&& nb.id == ob.id
                    &&& nb.username == ob.username
                    &&& nb.display_name == ob.display_name
                    &&& nb.password_hash == ob.password_hash
                    &&& (ob.id == id ==> (nb.avatar_url matches Some(u) && u@ == avatar_url@))
                    &&& (ob.id != id ==> nb.avatar_url == ob.avatar_url)
                },
    {
        let n = self.brawlers.len();
        let mut i: usize = 0;
        while i < n
            invariant
                old(self).wf(),
                n == self.brawlers@.len(),
                0 <= i <= n,
                *self == *old(self),
                forall|j: int| 0 <= j < i ==> (#[trigger] self.brawlers@[j]).id != id,
            decreases n - i,
        {
            if self.brawlers[i].id == id {
                let b = &self.brawlers[i];
                let updated = BrawlerRecord {
                    id: b.id,
                    username: b.username.clone(),
                    display_name: b.display_name.clone(),
                    password_hash: b.password_hash.clone(),
                    avatar_url: Some(avatar_url.clone()),
                };
                self.brawlers[i] = updated;
                return avatar_url;
            }
            i = i + 1;
        }
        avatar_url
    }

    /// Whether the principal appears in the mission's crew rows.
    pub fn is_crew(&self, brawler_id: i32, mission_id: i32) -> (r: bool)
        ensures
            r == is_crew_member(self.crews@, brawler_id, mission_id),
    {
        let n = self.crews.len();
        let mut i: usize = 0;
        while i < n
            invariant
                n == self.crews@.len(),
                0 <= i <= n,
                forall|j: int|
                    0 <= j < i ==> !((#[trigger] self.crews@[j]).brawler_id == brawler_id
                        && self.crews@[j].mission_id == mission_id),
            decreases n - i,
        {
            let c = self.crews[i];
            if c.brawler_id == brawler_id && c.mission_id == mission_id {
                return true;
            }
            i = i + 1;
        }
        false
    }

    /// Count of crew-membership rows referencing the mission; zero is a
    /// valid and common result.
    pub fn count_crew(&self, mission_id: i32) -> (r: u32)
        requires
            self.crews@.len() < u32::MAX,
        ensures
            r as nat == spec_crew_count(self.crews@, mission_id),
    {
        let n = self.crews.len();
        let mut count: u32 = 0;
        let mut i: usize = 0;
        while i < n
            invariant
                n == self.crews@.len(),
                n < u32::MAX,
                0 <= i <= n,
                count <= i,
                count as nat == spec_crew_count(self.crews@.subrange(0, i as int), mission_id),
            decreases n - i,
        {
            proof {
                let pre = self.crews@.subrange(0, i as int);
                let post = self.crews@.subrange(0, i as int + 1);
                assert(post.drop_last() =~= pre);
                assert(post.last() == self.crews@[i as int]);
            }
            if self.crews[i].mission_id == mission_id {
                count = count + 1;
            }
            i = i + 1;
        }
        proof {
            assert(self.crews@.subrange(0, n as int) =~= self.crews@);
        }
        count
    }

    /// The missions the principal may see: those it chiefs or crews on,
    /// soft-deleted ones excluded, in storage order.
    pub fn list_missions_for(&self, brawler_id: i32) -> (r: Vec<MissionRecord>)
        ensures
            r@ == visible_missions(self.missions@, self.crews@, brawler_id),
    {
        let n = self.missions.len();
        let mut out: Vec<MissionRecord> = Vec::new();
        let ghost pred = |m: MissionRecord| mission_visible(m, self.crews@, brawler_id);
        proof {
            reveal(Seq::filter);
            assert(self.missions@.subrange(0, 0) =~= Seq::<MissionRecord>::empty());
            assert(out@ == self.missions@.subrange(0, 0).filter(pred));
        }
        let mut i: usize = 0;
        while i < n
            invariant
                n == self.missions@.len(),
                0 <= i <= n,
                pred == (|m: MissionRecord| mission_visible(m, self.crews@, brawler_id)),
                out@ == self.missions@.subrange(0, i as int).filter(pred),
            decreases n - i,
        {
            let m = self.missions[i];
            let visible = !m.deleted && (m.chief_id == brawler_id || self.is_crew(
                brawler_id,
                m.id,
            ));
            proof {
                reveal(Seq::filter);
                let pre = self.missions@.subrange(0, i as int);
                let post = self.missions@.subrange(0, i as int + 1);
                assert(post.drop_last() =~= pre);
                assert(post.last() == self.missions@[i as int]);
                assert(visible == pred(m));
            }
            if visible {
                out.push(m);
            }
            i = i + 1;
        }
        proof {
            assert(self.missions@.subrange(0, n as int) =~= self.missions@);
        }
        out
    }

    /// Apply a lifecycle step. Succeeds exactly when a live (not
    /// soft-deleted) mission carries the identifier, its chief is the
    /// caller, and the step follows the state machine; then only that
    /// mission's status changes, and the mission identifier is returned.
    /// Every other case is the one indistinguishable `NotFoundOrForbidden`.
    pub fn update_mission_status(
        &mut self,
        mission_id: i32,
        chief_id: i32,
        target: MissionStatus,
    ) -> (r: Result<i32, CoreError>)
        requires
            old(self).wf(),
        ensures
            final(self).wf(),
            final(self).brawlers == old(self).brawlers,
            final(self).crews == old(self).crews,
            final(self).next_brawler_id == old(self).next_brawler_id,
            match r {
                Ok(rid) => {
                    &&& rid == mission_id
                    &&& old(self).can_transition(mission_id, chief_id, target)
                    &&& final(self).missions@.len() == old(self).missions@.len()
                    &&& forall|i: int|
                        0 <= i < old(self).missions@.len() ==> {
                            let om = old(self).missions@[i];
                            let nm = #[trigger] final(self).missions@[i];
                            &&& nm.id == om.id
                            &&& nm.chief_id == om.chief_id
                            &&& nm.deleted == om.deleted
                            &&& (om.id == mission_id ==> nm.status == target)
                            &&& (om.id != mission_id ==> nm.status == om.status)
                        }
                },
                Err(e) => {
                    &&& e == CoreError::NotFoundOrForbidden
                    &&& !old(self).can_transition(mission_id, chief_id, target)
                    &&& *final(self) == *old(self)
                },
            },
    {
        let n = self.missions.len();
        let mut i: usize = 0;
        while i < n
            invariant
                old(self).wf(),
                n == self.missions@.len(),
                0 <= i <= n,
                *self == *old(self),
                forall|j: int| 0 <= j < i ==> (#[trigger] self.missions@[j]).id != mission_id,
            decreases n - i,
        {
            let m = self.missions[i];
            if m.id == mission_id {
                if !m.deleted && m.chief_id == chief_id && m.status.can_transition_to(&target) {
                    let updated = MissionRecord {
                        id: m.id,
                        chief_id: m.chief_id,
                        status: target,
                        deleted: m.deleted,
                    };
                    self.missions[i] = updated;
                    return Ok(mission_id);
                } else {
                    proof {
                        assert forall|k: int|
                            0 <= k < self.missions@.len() implies !((#[trigger] self.missions@[k]).id
                            == mission_id && !self.missions@[k].deleted
                            && self.missions@[k].chief_id == chief_id && allowed_transition(
                            self.missions@[k].status,
                            target,
                        )) by {
                            if k != i as int {
                                assert(self.missions@[k].id != self.missions@[i as int].id);
                            }
                        }
                    }
                    return Err(CoreError::NotFoundOrForbidden);
                }
            }
            i = i + 1;
        }
        Err(CoreError::NotFoundOrForbidden)
    }
}

/// Every row of a filtered mission sequence is a row of the unfiltered one.
pub proof fn lemma_filter_members(
    missions: Seq<MissionRecord>,
    pred: spec_fn(MissionRecord) -> bool,
)
    ensures
        forall|j: int|
            0 <= j < missions.filter(pred).len() ==> missions.contains(
                #[trigger] missions.filter(pred)[j],
            ),
    decreases missions.len(),
{
    reveal(Seq::filter);
    if missions.len() > 0 {
        lemma_filter_members(missions.drop_last(), pred);
        assert forall|j: int|
            0 <= j < missions.filter(pred).len() implies missions.contains(
            #[trigger] missions.filter(pred)[j],
        ) by {
            let f = missions.filter(pred);
            let sub = missions.drop_last().filter(pred);
            if j < sub.len() {
                assert(missions.drop_last().contains(sub[j]));
                let k = choose|k: int|
                    0 <= k < missions.drop_last().len() && missions.drop_last()[k] == sub[j];
                assert(missions[k] == f[j]);
            } else {
                assert(missions[missions.len() - 1] == f[j]);
            }
        }
    }
}

/// A caller who is not the chief of any live row carrying the mission
/// identifier can never transition that mission, whatever the target status.
pub proof fn lemma_non_chief_cannot_transition(
    s: IdentityStore,
    mission_id: i32,
    caller: i32,
    target: MissionStatus,
)
    requires
        forall|i: int|
            0 <= i < s.missions@.len() && (#[trigger] s.missions@[i]).id == mission_id
                ==> s.missions@[i].chief_id != caller,
    ensures
        !s.can_transition(mission_id, caller, target),
{
}

/// Once a mission is terminal (`Completed` or `Failed`), no transition
/// succeeds on it, for any caller and any target status.
pub proof fn lemma_terminal_mission_never_transitions(
    s: IdentityStore,
    mission_id: i32,
    caller: i32,
    target: MissionStatus,
)
    requires
        forall|i: int|
            0 <= i < s.missions@.len() && (#[trigger] s.missions@[i]).id == mission_id
                ==> crate::missions::is_terminal(s.missions@[i].status),
    ensures
        !s.can_transition(mission_id, caller, target),
{
}

/// A principal who is neither chief nor crew member of a mission never
/// receives a row with that mission's identifier in a listing.
pub proof fn lemma_outsider_never_sees_mission(
    missions: Seq<MissionRecord>,
    crews: Seq<CrewMembership>,
    brawler_id: i32,
    mission_id: i32,
)
    requires
        forall|i: int|
            0 <= i < missions.len() && (#[trigger] missions[i]).id == mission_id
                ==> missions[i].chief_id != brawler_id,
        !is_crew_member(crews, brawler_id, mission_id),
    ensures
        forall|j: int|
            0 <= j < visible_missions(missions, crews, brawler_id).len() ==> (
            #[trigger] visible_missions(missions, crews, brawler_id)[j]).id != mission_id,
{
    let pred = |m: MissionRecord| mission_visible(m, crews, brawler_id);
    let vis = missions.filter(pred);
    lemma_filter_members(missions, pred);
    assert forall|j: int| 0 <= j < vis.len() implies (#[trigger] vis[j]).id != mission_id by {
        Seq::lemma_filter_pred(missions, pred, j);
        assert(missions.contains(vis[j]));
        let k = choose|k: int| 0 <= k < missions.len() && missions[k] == vis[j];
        assert(pred(vis[j]));
    }
}

} // verus!

//! Authentication service: registration, login and the mission-facing use
//! cases of a principal, orchestrating the store, the hasher and the token
//! codec.

use vstd::prelude::*;

use crate::errors::CoreError;
use crate::hasher::{digest_matches, hash_password, verify_password};
use crate::missions::MissionStatus;
use crate::store::{spec_crew_count, visible_missions, username_taken, IdentityStore};
use crate::token::{issue, token_chars};

verus! {

/// A registration request: consumed once; the plaintext password is hashed
/// before anything reaches the store.
#[derive(Debug, Clone)]
pub struct RegisterBrawlerModel {
    pub username: String,
    pub password: String,
    pub display_name: String,
}

/// A mission view handed back to its audience: the row and its crew
/// headcount.
#[derive(Debug, Clone)]
pub struct MissionModel {
    pub id: i32,
    pub status: MissionStatus,
    pub crew_count: i64,
}

/// The bundle returned on successful authentication.
#[derive(Debug, Clone)]
pub struct Passport {
    pub refresh_token: String,
    pub access_token: String,
    pub token_type: String,
    pub expires_in: usize,
    pub display_name: String,
    pub avatar_url: Option<String>,
}

/// Some stored principal carries the username and the password verifies
/// against its digest.
pub open spec fn login_ok(store: IdentityStore, username: Seq<char>, password: Seq<char>) -> bool {
    exists|i: int|
        0 <= i < store.brawlers@.len() && (#[trigger] store.brawlers@[i]).username@ == username
            && digest_matches(password, store.brawlers@[i].password_hash@)
}

/// The stateless orchestrator over the identity store.
pub struct BrawlersUseCase {
    pub store: IdentityStore,
}

impl BrawlersUseCase {
    pub fn new(store: IdentityStore) -> (r: Self)
        ensures
            r.store == store,
    {
        Self { store }
    }

    /// Register a principal. Fails with `Conflict` exactly when the username
    /// is taken (before any hashing); otherwise persists the hashed
    /// password — never the plaintext — and returns the fresh identifier.
    pub fn register(&mut self, model: RegisterBrawlerModel) -> (r: Result<i32, CoreError>)
        requires
            old(self).store.wf(),
            old(self).store.next_brawler_id < i32::MAX,
        ensures
            final(self).store.wf(),
            final(self).store.missions == old(self).store.missions,
            final(self).store.crews == old(self).store.crews,
            match r {
                Ok(id) => {
                    &&& !username_taken(old(self).store.brawlers@, model.username@)
                    &&& id == old(self).store.next_brawler_id
                    &&& final(self).store.next_brawler_id == old(self).store.next_brawler_id + 1
                    &&& final(self).store.brawlers@.len() == old(self).store.brawlers@.len() + 1
                    &&& final(self).store.brawlers@.subrange(
                        0,
                        old(self).store.brawlers@.len() as int,
                    ) == old(self).store.brawlers@
                    &&& final(self).store.brawlers@.last().id == id
                    &&& final(self).store.brawlers@.last().username == model.username
                    &&& final(self).store.brawlers@.last().display_name == model.display_name
                    &&& digest_matches(
                        model.password@,
                        final(self).store.brawlers@.last().password_hash@,
                    )
                    &&& final(self).store.brawlers@.last().password_hash@ != model.password@
                        || (model.password@.len() > 0 && model.password@[0] == '$')
                },
                Err(e) => {
                    &&& *final(self) == *old(self)
                    &&& (e == CoreError::Conflict || e == CoreError::StorageError)
                    &&& (e == CoreError::Conflict <==> username_taken(
                        old(self).store.brawlers@,
                        model.username@,
                    ))
                },
            },
    {
        if self.store.has_username(&model.username) {
            return Err(CoreError::Conflict);
        }
        let hashed = match hash_password(model.password.as_str()) {
            Some(h) => h,
            None => {
                return Err(CoreError::StorageError);
            },
        };
        proof {
            if hashed@ == model.password@ {
                assert(model.password@.len() > 0 && model.password@[0] == '$');
            }
        }
        let r = self.store.insert_principal(model.username, model.display_name, hashed);
        match r {
            Ok(id) => Ok(id),
            Err(_) => Err(CoreError::Conflict),
        }
    }

    /// Log a principal in. `InvalidCredentials` merges "no such user" and
    /// "wrong password"; on success a fresh passport carries a bearer token
    /// for the principal's identifier, valid from `now` for `ttl` seconds.
    pub fn login(
        &self,
        username: &String,
        password: &str,
        secret: &str,
        now: u64,
        ttl: u64,
    ) -> (r: Result<Passport, CoreError>)
        requires
            self.store.wf(),
            now + ttl <= u64::MAX,
            ttl <= usize::MAX,
        ensures
            match r {
                Ok(p) => {
                    &&& login_ok(self.store, username@, password@)
                    &&& exists|i: int|
                        0 <= i < self.store.brawlers@.len() && {
                            let b = #[trigger] self.store.brawlers@[i];
                            &&& b.username@ == username@
                            &&& digest_matches(password@, b.password_hash@)
                            &&& p.access_token@ == token_chars(
                                secret@,
                                b.id as u64,
                                now,
                                (now + ttl) as u64,
                            )
                            &&& p.display_name == b.display_name
                            &&& p.avatar_url == b.avatar_url
                        }
                    &&& p.token_type@ == "Bearer"@
                    &&& p.expires_in == ttl as usize
                    &&& p.refresh_token == p.access_token
                },
                Err(e) => {
                    &&& e == CoreError::InvalidCredentials
                    &&& !login_ok(self.store, username@, password@)
                },
            },
    {
        let found = self.store.find_principal_by_username(username);
        match found {
            None => Err(CoreError::InvalidCredentials),
            Some(b) => {
                if verify_password(password, b.password_hash.as_str()) {
                    let access = issue(secret, b.id as u64, now, ttl);
                    let avatar = match &b.avatar_url {
                        Some(u) => Some(u.clone()),
                        None => None,
                    };
                    let p = Passport {
                        refresh_token: access.clone(),
                        access_token: access,
                        token_type: "Bearer".to_owned(),
                        expires_in: ttl as usize,
                        display_name: b.display_name.clone(),
                        avatar_url: avatar,
                    };
                    Ok(p)
                } else {
                    proof {
                        let wi = choose|i: int|
                            0 <= i < self.store.brawlers@.len() && #[trigger] self.store.brawlers@[i]
                                == *b;
                        assert forall|i: int|
                            0 <= i < self.store.brawlers@.len() && (#[trigger] self.store.brawlers@[i]).username@
                                == username@ implies !digest_matches(
                            password@,
                            self.store.brawlers@[i].password_hash@,
                        ) by {
                            if i != wi {
                                assert(self.store.brawlers@[i].username@ != self.store.brawlers@[wi].username@);
                            }
                        }
                    }
                    Err(CoreError::InvalidCredentials)
                }
            },
        }
    }

    /// Register and immediately log the new principal in with the same
    /// credentials, so one round trip yields an authenticated passport.
    pub fn register_and_login(
        &mut self,
        model: RegisterBrawlerModel,
        secret: &str,
        now: u64,
        ttl: u64,
    ) -> (r: Result<Passport, CoreError>)
        requires
            old(self).store.wf(),
            old(self).store.next_brawler_id < i32::MAX,
            now + ttl <= u64::MAX,
            ttl <= usize::MAX,
        ensures
            final(self).store.wf(),
            final(self).store.missions == old(self).store.missions,
            final(self).store.crews == old(self).store.crews,
            match r {
                Ok(p) => {
                    &&& !username_taken(old(self).store.brawlers@, model.username@)
                    &&& login_ok(final(self).store, model.username@, model.password@)
                    &&& p.token_type@ == "Bearer"@
                    &&& p.expires_in == ttl as usize
                    &&& p.display_name == model.display_name
                    &&& p.access_token@ == token_chars(
                        secret@,
                        old(self).store.next_brawler_id as u64,
                        now,
                        (now + ttl) as u64,
                    )
                },
                Err(e) => {
                    &&& (e == CoreError::Conflict || e == CoreError::StorageError)
                    &&& (e == CoreError::Conflict <==> username_taken(
                        old(self).store.brawlers@,
                        model.username@,
                    ))
                    &&& *final(self) == *old(self)
                },
            },
    {
        let username = model.username.clone();
        let password = model.password.clone();
        let new_id = match self.register(model) {
            Ok(id) => id,
            Err(e) => {
                return Err(e);
            },
        };
        let ghost post = *self;
        let r = self.login(&username, password.as_str(), secret, now, ttl);
        match r {
            Ok(p) => {
                proof {
                    let n = post.store.brawlers@.len() - 1;
                    assert(post.store.brawlers@[n].username@ == username@);
                    let b = choose|i: int|
                        0 <= i < post.store.brawlers@.len() && {
                            let b = #[trigger] post.store.brawlers@[i];
                            &&& b.username@ == username@
                            &&& digest_matches(password@, b.password_hash@)
                            &&& p.access_token@ == token_chars(
                                secret@,
                                b.id as u64,
                                now,
                                (now + ttl) as u64,
                            )
                            &&& p.display_name == b.display_name
                            &&& p.avatar_url == b.avatar_url
                        };
                    if b != n {
                        assert(post.store.brawlers@[b].username@ != post.store.brawlers@[n].username@);
                    }
                }
                Ok(p)
            },
            Err(_) => {
                proof {
                    let n = post.store.brawlers@.len() - 1;
                    assert(post.store.brawlers@[n].username@ == username@ && digest_matches(
                        password@,
                        post.store.brawlers@[n].password_hash@,
                    ));
                    assert(false);
                }
                Err(CoreError::StorageError)
            },
        }
    }

    /// Associate an avatar data URL with the principal and return it.
    pub fn upload_avatar(&mut self, base64_string: String, id: i32) -> (r: Result<
        String,
        CoreError,
    >)
        requires
            old(self).store.wf(),
        ensures
            final(self).store.wf(),
            final(self).store.missions == old(self).store.missions,
            final(self).store.crews == old(self).store.crews,
            final(self).store.next_brawler_id == old(self).store.next_brawler_id,
            final(self).store.brawlers@.len() == old(self).store.brawlers@.len(),
            match r {
                Ok(url) => {
                    &&& url@ == "data:image/png;base64,"@ + base64_string@
                    &&& forall|i: int|
                        0 <= i < old(self).store.brawlers@.len() ==> {
                            let ob = old(self).store.brawlers@[i];
                            let nb = #[trigger] final(self).store.brawlers@[i];
                            &&& nb.id == ob.id
                            &&& nb.username == ob.username
                            &&& nb.display_name == ob.display_name
                            &&& nb.password_hash == ob.password_hash
                            &&& (ob.id == id ==> (nb.avatar_url matches Some(u) && u@ == url@))
                            &&& (ob.id != id ==> nb.avatar_url == ob.avatar_url)
                        }
                },
                Err(_) => false,
            },
    {
        let mut url = "data:image/png;base64,".to_owned();
        url.append(base64_string.as_str());
        let stored = self.store.update_avatar(id, url);
        Ok(stored)
    }

    /// The missions the principal may see — as chief or crew member, never
    /// soft-deleted — each with its crew headcount.
    pub fn get_my_missions(&self, brawler_id: i32) -> (r: Result<Vec<MissionModel>, CoreError>)
        requires
            self.store.crews@.len() < u32::MAX,
        ensures
            match r {
                Ok(models) => {
                    let vis = visible_missions(
                        self.store.missions@,
                        self.store.crews@,
                        brawler_id,
                    );
                    &&& models@.len() == vis.len()
                    &&& forall|i: int|
                        0 <= i < vis.len() ==> {
                            let m = #[trigger] models@[i];
                            &&& m.id == vis[i].id
                            &&& m.status == vis[i].status
                            &&& m.crew_count == spec_crew_count(self.store.crews@, vis[i].id)
                        }
                },
                Err(_) => false,
            },
    {
        let missions = self.store.list_missions_for(brawler_id);
        let n = missions.len();
        let mut models: Vec<MissionModel> = Vec::new();
        let ghost vis = visible_missions(self.store.missions@, self.store.crews@, brawler_id);
        let mut i: usize = 0;
        while i < n
            invariant
                n == missions@.len(),
                missions@ == vis,
                self.store.crews@.len() < u32::MAX,
                0 <= i <= n,
                models@.len() == i,
                forall|j: int|
                    0 <= j < i ==> {
                        let m = #[trigger] models@[j];
                        &&& m.id == vis[j].id
                        &&& m.status == vis[j].status
                        &&& m.crew_count == spec_crew_count(self.store.crews@, vis[j].id)
                    },
            decreases n - i,
        {
            let mission = missions[i];
            let count = self.store.count_crew(mission.id);
            models.push(
                MissionModel {
                    id: mission.id,
                    status: mission.status,
                    crew_count: count as i64,
                },
            );
            i = i + 1;
        }
        Ok(models)
    }
}

} // verus!

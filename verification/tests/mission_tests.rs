use brawlers_core::auth::BrawlersUseCase;
use brawlers_core::errors::CoreError;
use brawlers_core::missions::MissionStatus;
use brawlers_core::store::{CrewMembership, IdentityStore, MissionRecord};

fn mission(id: i32, chief_id: i32, status: MissionStatus, deleted: bool) -> MissionRecord {
    MissionRecord { id, chief_id, status, deleted }
}

fn crew(mission_id: i32, brawler_id: i32) -> CrewMembership {
    CrewMembership { mission_id, brawler_id }
}

#[test]
fn only_the_chief_may_transition() {
    let mut store = IdentityStore::new();
    store.missions.push(mission(7, 1, MissionStatus::Pending, false));

    // Principal 2 is neither chief nor crew: indistinguishable from "no such
    // mission".
    let r = store.update_mission_status(7, 2, MissionStatus::InProgress);
    assert_eq!(r.unwrap_err(), CoreError::NotFoundOrForbidden);
    assert_eq!(store.missions[0].status, MissionStatus::Pending);

    // The chief succeeds and the status advances.
    let r = store.update_mission_status(7, 1, MissionStatus::InProgress);
    assert_eq!(r.unwrap(), 7);
    assert_eq!(store.missions[0].status, MissionStatus::InProgress);
}

#[test]
fn non_chief_fails_even_when_crew_member() {
    let mut store = IdentityStore::new();
    store.missions.push(mission(3, 1, MissionStatus::Pending, false));
    store.crews.push(crew(3, 2));
    let r = store.update_mission_status(3, 2, MissionStatus::InProgress);
    assert_eq!(r.unwrap_err(), CoreError::NotFoundOrForbidden);
}

#[test]
fn missing_mission_fails_like_foreign_mission() {
    let mut store = IdentityStore::new();
    let r = store.update_mission_status(99, 1, MissionStatus::InProgress);
    assert_eq!(r.unwrap_err(), CoreError::NotFoundOrForbidden);
}

#[test]
fn terminal_missions_accept_no_further_transition() {
    for terminal in [MissionStatus::Completed, MissionStatus::Failed] {
        let mut store = IdentityStore::new();
        store.missions.push(mission(1, 1, terminal, false));
        for target in [
            MissionStatus::Pending,
            MissionStatus::InProgress,
            MissionStatus::Completed,
            MissionStatus::Failed,
        ] {
            let r = store.update_mission_status(1, 1, target);
            assert_eq!(r.unwrap_err(), CoreError::NotFoundOrForbidden);
            assert_eq!(store.missions[0].status, terminal);
        }
    }
}

#[test]
fn lifecycle_runs_pending_in_progress_completed() {
    let mut store = IdentityStore::new();
    store.missions.push(mission(1, 1, MissionStatus::Pending, false));
    assert!(store.update_mission_status(1, 1, MissionStatus::Completed).is_err());
    assert_eq!(store.update_mission_status(1, 1, MissionStatus::InProgress).unwrap(), 1);
    assert_eq!(store.update_mission_status(1, 1, MissionStatus::Completed).unwrap(), 1);
    assert_eq!(store.missions[0].status, MissionStatus::Completed);
}

#[test]
fn soft_deleted_missions_cannot_transition() {
    let mut store = IdentityStore::new();
    store.missions.push(mission(1, 1, MissionStatus::Pending, true));
    let r = store.update_mission_status(1, 1, MissionStatus::InProgress);
    assert_eq!(r.unwrap_err(), CoreError::NotFoundOrForbidden);
}

#[test]
fn status_transition_table() {
    assert!(MissionStatus::Pending.can_transition_to(&MissionStatus::InProgress));
    assert!(MissionStatus::InProgress.can_transition_to(&MissionStatus::Completed));
    assert!(MissionStatus::InProgress.can_transition_to(&MissionStatus::Failed));
    assert!(!MissionStatus::Pending.can_transition_to(&MissionStatus::Completed));
    assert!(!MissionStatus::Pending.can_transition_to(&MissionStatus::Failed));
    assert!(!MissionStatus::Completed.can_transition_to(&MissionStatus::InProgress));
    assert!(!MissionStatus::Failed.can_transition_to(&MissionStatus::InProgress));
    assert!(MissionStatus::Completed.terminal());
    assert!(MissionStatus::Failed.terminal());
    assert!(!MissionStatus::Pending.terminal());
    assert_eq!(MissionStatus::InProgress.as_str(), "InProgress");
}

#[test]
fn crew_count_follows_membership_rows() {
    let mut store = IdentityStore::new();
    store.missions.push(mission(5, 1, MissionStatus::Pending, false));
    store.crews.push(crew(5, 2));
    store.crews.push(crew(5, 3));
    store.crews.push(crew(5, 4));
    store.crews.push(crew(6, 2));
    assert_eq!(store.count_crew(5), 3);

    // One crew row removed by the collaborator that owns the rows.
    store.crews.remove(1);
    assert_eq!(store.count_crew(5), 2);
    assert_eq!(store.count_crew(6), 1);
    assert_eq!(store.count_crew(7), 0);
}

#[test]
fn visibility_covers_chief_and_crew_only() {
    let mut store = IdentityStore::new();
    store.missions.push(mission(1, 10, MissionStatus::Pending, false));
    store.missions.push(mission(2, 11, MissionStatus::InProgress, false));
    store.missions.push(mission(3, 11, MissionStatus::Pending, true));
    store.crews.push(crew(2, 10));
    store.crews.push(crew(3, 10));

    // Principal 10 chiefs mission 1 and crews on mission 2; mission 3 is
    // soft-deleted and stays invisible even to its crew.
    let seen: Vec<i32> = store.list_missions_for(10).iter().map(|m| m.id).collect();
    assert_eq!(seen, vec![1, 2]);

    // Principal 12 is neither chief nor crew member of anything.
    assert!(store.list_missions_for(12).is_empty());
}

#[test]
fn my_missions_attach_crew_counts() {
    let mut uc = BrawlersUseCase::new(IdentityStore::new());
    uc.store.missions.push(mission(1, 10, MissionStatus::Pending, false));
    uc.store.missions.push(mission(2, 11, MissionStatus::InProgress, false));
    uc.store.crews.push(crew(2, 10));
    uc.store.crews.push(crew(2, 12));
    let models = uc.get_my_missions(10).unwrap();
    assert_eq!(models.len(), 2);
    assert_eq!(models[0].id, 1);
    assert_eq!(models[0].crew_count, 0);
    assert_eq!(models[1].id, 2);
    assert_eq!(models[1].status, MissionStatus::InProgress);
    assert_eq!(models[1].crew_count, 2);
}

//! The write token.

use control_ofc_daemon::clock::{Duration, Instant};
use control_ofc_daemon::hwmon::lease::{HwmonWriter, LeaseError, LeaseManager};

fn start() -> Instant {
    Instant::from_millis(1_000_000)
}

#[test]
fn take_lease_succeeds_when_no_lease() {
    let mut mgr = LeaseManager::new();
    let lease = mgr.take_lease(HwmonWriter::Engine, start()).unwrap();
    assert_eq!(lease.owner, HwmonWriter::Engine);
    assert!(lease.lease_id.starts_with("lease-"));
}

#[test]
fn take_lease_fails_when_lease_held() {
    let mut mgr = LeaseManager::new();
    mgr.take_lease(HwmonWriter::Engine, start()).unwrap();

    let err = mgr.take_lease(HwmonWriter::Verify, start()).unwrap_err();
    match err {
        LeaseError::AlreadyHeld { owner, .. } => {
            assert_eq!(owner, HwmonWriter::Engine);
        }
        _ => panic!("expected AlreadyHeld"),
    }
}

#[test]
fn take_lease_succeeds_after_expiry() {
    let mut now = start();
    let mut mgr = LeaseManager::with_ttl(Duration::from_secs(60));
    mgr.take_lease(HwmonWriter::Engine, now).unwrap();

    now = now.after(Duration::from_secs(61));

    let lease = mgr.take_lease(HwmonWriter::Verify, now).unwrap();
    assert_eq!(lease.owner, HwmonWriter::Verify);
}

#[test]
fn release_lease_succeeds_with_correct_id() {
    let mut mgr = LeaseManager::new();
    let lease = mgr.take_lease(HwmonWriter::Engine, start()).unwrap();
    let id = lease.lease_id.clone();

    mgr.release_lease(&id).unwrap();
    assert!(mgr.active_lease(start()).is_none());
}

#[test]
fn release_lease_fails_with_wrong_id() {
    let mut mgr = LeaseManager::new();
    mgr.take_lease(HwmonWriter::Engine, start()).unwrap();

    let err = mgr.release_lease("wrong-id").unwrap_err();
    assert_eq!(err, LeaseError::InvalidLease);
}

#[test]
fn release_lease_fails_when_no_lease() {
    let mut mgr = LeaseManager::new();
    let err = mgr.release_lease("any").unwrap_err();
    assert_eq!(err, LeaseError::NoLease);
}

#[test]
fn validate_lease_succeeds() {
    let mut mgr = LeaseManager::new();
    let lease = mgr.take_lease(HwmonWriter::Engine, start()).unwrap();
    mgr.validate_lease(&lease.lease_id, start()).unwrap();
}

#[test]
fn validate_lease_fails_when_expired() {
    let mut now = start();
    let mut mgr = LeaseManager::with_ttl(Duration::from_secs(60));
    let lease = mgr.take_lease(HwmonWriter::Engine, now).unwrap();

    now = now.after(Duration::from_secs(61));

    let err = mgr.validate_lease(&lease.lease_id, now).unwrap_err();
    assert_eq!(err, LeaseError::Expired);
}

#[test]
fn validate_lease_fails_with_wrong_id() {
    let mut mgr = LeaseManager::new();
    mgr.take_lease(HwmonWriter::Engine, start()).unwrap();

    let err = mgr.validate_lease("wrong-id", start()).unwrap_err();
    assert_eq!(err, LeaseError::InvalidLease);
}

#[test]
fn validate_lease_distinguishes_wrong_id_from_expired() {
    let mut now = start();
    let mut mgr = LeaseManager::with_ttl(Duration::from_secs(60));
    let lease = mgr.take_lease(HwmonWriter::Engine, now).unwrap();
    let valid_id = lease.lease_id.clone();

    let wrong_err = mgr.validate_lease("not-the-real-id", now).unwrap_err();
    assert_eq!(wrong_err, LeaseError::InvalidLease);

    now = now.after(Duration::from_secs(61));
    let expired_err = mgr.validate_lease(&valid_id, now).unwrap_err();
    assert_eq!(expired_err, LeaseError::Expired);

    assert_ne!(wrong_err, expired_err);
}

#[test]
fn renew_lease_distinguishes_wrong_id_from_expired() {
    let mut now = start();
    let mut mgr = LeaseManager::with_ttl(Duration::from_secs(60));
    let lease = mgr.take_lease(HwmonWriter::Engine, now).unwrap();
    let valid_id = lease.lease_id.clone();

    let wrong_err = mgr.renew_lease("not-the-real-id", now).unwrap_err();
    assert_eq!(wrong_err, LeaseError::InvalidLease);

    now = now.after(Duration::from_secs(61));
    let expired_err = mgr.renew_lease(&valid_id, now).unwrap_err();
    assert_eq!(expired_err, LeaseError::Expired);

    assert_ne!(wrong_err, expired_err);
}

#[test]
fn active_lease_returns_none_when_expired() {
    let mut now = start();
    let mut mgr = LeaseManager::with_ttl(Duration::from_secs(60));
    mgr.take_lease(HwmonWriter::Engine, now).unwrap();

    now = now.after(Duration::from_secs(61));

    assert!(mgr.active_lease(now).is_none());
}

#[test]
fn lease_ids_are_unique() {
    let mut now = start();
    let mut mgr = LeaseManager::with_ttl(Duration::from_secs(60));
    let l1 = mgr.take_lease(HwmonWriter::Engine, now).unwrap();

    now = now.after(Duration::from_secs(61));

    let l2 = mgr.take_lease(HwmonWriter::Verify, now).unwrap();
    assert_ne!(l1.lease_id, l2.lease_id);
}

#[test]
fn force_take_lease_ids_are_unique() {
    let mut mgr = LeaseManager::new();
    let l1 = mgr.force_take_lease(HwmonWriter::Engine, start());
    let l2 = mgr.force_take_lease(HwmonWriter::Verify, start());
    assert_ne!(l1.lease_id, l2.lease_id);
    let l3 = mgr.force_take_lease(HwmonWriter::ThermalSafety, start()).lease_id;
    assert_ne!(l3, l1.lease_id);
    assert_ne!(l3, l2.lease_id);
}

#[test]
fn force_take_invalidates_the_evicted_holders_token() {
    let mut mgr = LeaseManager::new();
    let verify = mgr.force_take_lease(HwmonWriter::Verify, start());
    assert!(mgr.validate_lease(&verify.lease_id, start()).is_ok());

    let thermal = mgr.force_take_lease(HwmonWriter::ThermalSafety, start());
    assert!(mgr.validate_lease(&thermal.lease_id, start()).is_ok());

    assert_eq!(
        mgr.validate_lease(&verify.lease_id, start()),
        Err(LeaseError::InvalidLease)
    );
}

#[test]
fn lease_error_display_strings() {
    assert_eq!(
        LeaseError::AlreadyHeld {
            owner: HwmonWriter::Engine,
            ttl_seconds: 42,
        }
        .message(),
        "lease already held by 'profile-engine' (expires in 42s)",
    );
    assert_eq!(LeaseError::InvalidLease.message(), "invalid lease id");
    assert_eq!(LeaseError::Expired.message(), "lease expired");
    assert_eq!(
        LeaseError::NoLease.message(),
        "no active lease to release"
    );
}

#[test]
fn hwmon_writer_display_matches_historical_owner_strings() {
    assert_eq!(HwmonWriter::Engine.as_str(), "profile-engine");
    assert_eq!(HwmonWriter::Verify.as_str(), "verify");
    assert_eq!(HwmonWriter::ThermalSafety.as_str(), "thermal-safety");
}

#[test]
fn renew_lease_extends_ttl() {
    let mut now = start();
    let mut mgr = LeaseManager::with_ttl(Duration::from_secs(60));
    let lease = mgr.take_lease(HwmonWriter::Engine, now).unwrap();
    let id = lease.lease_id.clone();

    now = now.after(Duration::from_secs(59));
    mgr.renew_lease(&id, now).unwrap();

    now = now.after(Duration::from_secs(10));
    assert!(mgr.validate_lease(&id, now).is_ok());
}

#[test]
fn renew_lease_fails_with_wrong_id() {
    let mut mgr = LeaseManager::new();
    mgr.take_lease(HwmonWriter::Engine, start()).unwrap();
    let err = mgr.renew_lease("wrong", start()).unwrap_err();
    assert_eq!(err, LeaseError::InvalidLease);
}

#[test]
fn renew_lease_fails_when_expired() {
    let mut now = start();
    let mut mgr = LeaseManager::with_ttl(Duration::from_secs(60));
    let lease = mgr.take_lease(HwmonWriter::Engine, now).unwrap();
    let id = lease.lease_id.clone();
    now = now.after(Duration::from_secs(61));
    let err = mgr.renew_lease(&id, now).unwrap_err();
    assert_eq!(err, LeaseError::Expired);
}

#[test]
fn no_two_tokens_share_an_id() {
    let mut mgr = LeaseManager::new();
    let first = mgr.take_lease(HwmonWriter::Engine, start()).unwrap().lease_id;
    let second = mgr.force_take_lease(HwmonWriter::ThermalSafety, start()).lease_id;
    mgr.release_lease(&second).unwrap();
    let third = mgr.take_lease(HwmonWriter::Verify, start()).unwrap().lease_id;
    assert_ne!(first, second);
    assert_ne!(second, third);
    assert_ne!(first, third);
}

#[test]
fn a_forced_take_leaves_the_held_token_worthless() {
    let mut mgr = LeaseManager::new();
    let held = mgr.take_lease(HwmonWriter::Engine, start()).unwrap().lease_id;
    mgr.force_take_lease(HwmonWriter::ThermalSafety, start());
    assert_eq!(mgr.validate_lease(&held, start()), Err(LeaseError::InvalidLease));
    assert_eq!(mgr.renew_lease(&held, start()).unwrap_err(), LeaseError::InvalidLease);
    assert_eq!(mgr.release_lease(&held), Err(LeaseError::InvalidLease));
}

#[test]
fn a_token_is_good_up_to_its_last_moment() {
    let mut mgr = LeaseManager::with_ttl(Duration::from_secs(60));
    let id = mgr.take_lease(HwmonWriter::Engine, start()).unwrap().lease_id;
    let end = start().after(Duration::from_secs(60));
    assert!(mgr.validate_lease(&id, end.before(Duration { nanos: 1 })).is_ok());
    assert_eq!(mgr.validate_lease(&id, end), Err(LeaseError::Expired));
}

#[test]
fn a_forced_take_voids_tokens_from_long_before() {
    let mut mgr = LeaseManager::with_ttl(Duration::from_secs(60));
    assert!(mgr.can_grant());
    let first = mgr.take_lease(HwmonWriter::Engine, start()).unwrap().lease_id;
    mgr.renew_lease(&first, start()).unwrap();
    mgr.release_lease(&first).unwrap();
    mgr.take_lease(HwmonWriter::Verify, start()).unwrap();
    let forced = mgr.force_take_lease(HwmonWriter::ThermalSafety, start());
    assert_eq!(forced.owner, HwmonWriter::ThermalSafety);
    assert_eq!(forced.expires_at, start().after(Duration::from_secs(60)));
    assert!(mgr.validate_lease(&forced.lease_id, start()).is_ok());
    assert_eq!(
        mgr.validate_lease(&first, start()),
        Err(LeaseError::InvalidLease)
    );
}

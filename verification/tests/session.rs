use rekaserdoba_server::error::Error;
use rekaserdoba_server::session::{SessionPolicy, SECOND};
use std::time::Duration;

fn nanos(value: Duration) -> u64 {
    value.as_nanos() as u64
}

#[test]
fn enforces_quota() {
    let now = nanos(Duration::from_secs(5));
    let mut policy = SessionPolicy::new(60, 1024, 1500, now).unwrap();
    assert_eq!(policy.reserve(1024, now).unwrap(), nanos(Duration::ZERO));
    assert!(policy
        .reserve(477, now + nanos(Duration::from_secs(1)))
        .is_err());
}

#[test]
fn replenishes_bandwidth_tokens() {
    let now = nanos(Duration::from_secs(5));
    let mut policy = SessionPolicy::new(60, 1024, 0, now).unwrap();
    assert_eq!(
        policy.reserve(16 * 1024, now).unwrap(),
        nanos(Duration::ZERO)
    );
    assert_eq!(
        policy.reserve(512, now).unwrap(),
        nanos(Duration::from_millis(500))
    );
    assert_eq!(
        policy
            .reserve(512, now + nanos(Duration::from_millis(500)))
            .unwrap(),
        nanos(Duration::from_millis(500))
    );
}

#[test]
fn expires_session() {
    let now = nanos(Duration::from_secs(5));
    let mut policy = SessionPolicy::new(60, 1024, 0, now).unwrap();
    assert!(policy
        .reserve(1, now + nanos(Duration::from_secs(60)))
        .is_err());
}

#[test]
fn policy_names_each_refusal() {
    assert_eq!(
        SessionPolicy::new(59, 1024, 0, 0).err(),
        Some(Error::InvalidSessionLifetime)
    );
    assert_eq!(
        SessionPolicy::new(86401, 1024, 0, 0).err(),
        Some(Error::InvalidSessionLifetime)
    );
    assert_eq!(
        SessionPolicy::new(60, 1023, 0, 0).err(),
        Some(Error::InvalidSessionBandwidth)
    );
    let mut policy = SessionPolicy::new(60, 1024, 1500, 0).unwrap();
    assert_eq!(policy.reserve(1501, 0), Err(Error::SessionQuotaExceeded));
    assert_eq!(policy.reserve(1, 60 * SECOND), Err(Error::SessionLifetimeExpired));
    assert_eq!(policy.deadline(), 60 * SECOND as u128);
    let mut policy = SessionPolicy::new(60, 1024, 0, 0).unwrap();
    assert_eq!(policy.reserve(16 * 1024, 59 * SECOND), Ok(0));
    assert_eq!(
        policy.reserve(2048, 59 * SECOND),
        Err(Error::SessionExpiresDuringShaping)
    );
}

#[test]
fn idle_time_refills_the_burst() {
    let mut policy = SessionPolicy::new(3600, 1024, 0, 0).unwrap();
    assert_eq!(policy.reserve(16 * 1024 + 512, 0), Ok(SECOND / 2));
    let rested = SECOND / 2 + 16 * SECOND;
    assert_eq!(policy.reserve(16 * 1024, rested), Ok(0));
    assert_eq!(policy.reserve(1, rested), Ok(976_563));
}

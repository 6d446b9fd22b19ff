use secure_keyspaces::audit::{judge_recording, AuditConfig};
use secure_keyspaces::policy::{
    judge_removal, unix_seconds, SecureCompactionPolicy, SecureRetentionFilter, Verdict,
};
use secure_keyspaces::{
    AuditEvent, AuditFailureMode, AuditSink, CompactionDeleteReason, CompositeKey, Error,
    NoAuditSink, RetentionPolicy, Ttl,
};
use std::sync::{Arc, Mutex};

fn policy(max_versions: Option<usize>, ttl: Option<u64>) -> RetentionPolicy {
    RetentionPolicy {
        max_versions,
        ttl: ttl.map(Ttl::from_secs),
    }
}

fn key(row: &str, visibility: &str, timestamp: i64) -> Vec<u8> {
    CompositeKey {
        row: row.as_bytes().to_vec(),
        family: b"f".to_vec(),
        qualifier: b"q".to_vec(),
        visibility: visibility.as_bytes().to_vec(),
        timestamp,
    }
    .encode()
    .unwrap()
}

#[derive(Clone, Default)]
struct Sink {
    deletions: Arc<Mutex<Vec<(String, CompactionDeleteReason)>>>,
    fail: bool,
}

impl AuditSink<u8> for Sink {
    fn record(&self, event: AuditEvent<'_, u8>) -> Result<(), Error> {
        if let AuditEvent::CompactionDeleted { keyspace, reason } = event {
            self.deletions
                .lock()
                .unwrap()
                .push((keyspace.to_string(), reason));
        }
        if self.fail {
            Err(Error::Audit("full"))
        } else {
            Ok(())
        }
    }
}

#[test]
fn policies_are_validated() {
    assert_eq!(Ok(()), RetentionPolicy::default().validate());
    assert_eq!(Ok(()), policy(Some(1), Some(1)).validate());
    assert_eq!(
        Err(Error::InvalidPolicy("max_versions must be greater than zero")),
        policy(Some(0), Some(0)).validate(),
    );
    assert_eq!(
        Err(Error::InvalidPolicy("ttl must be greater than zero")),
        policy(Some(1), Some(0)).validate(),
    );
    let short = RetentionPolicy {
        max_versions: None,
        ttl: Some(Ttl::new(0, 1)),
    };
    assert_eq!(Ok(()), short.validate());
    assert!(!Ttl::new(0, 1).is_zero());
    assert!(Ttl::new(0, 0).is_zero());
    assert!(SecureCompactionPolicy::<u8, Sink>::new("events", policy(Some(0), None), None).is_err());
}

#[test]
fn expiry_compares_unix_seconds() {
    let hour = policy(None, Some(3_600));

    assert!(hour.is_expired(10_000, 6_400));
    assert!(!hour.is_expired(10_000, 6_401));
    assert!(!policy(None, None).is_expired(i64::MAX, i64::MIN));
    // A span beyond all timestamps never expires anything.
    assert!(!policy(None, Some(u64::MAX)).is_expired(i64::MAX, i64::MIN));
    // The oldest retained time saturates at the least timestamp.
    let long = policy(None, Some(i64::MAX as u64));
    assert!(long.is_expired(-2, i64::MIN));
    assert!(!long.is_expired(-2, i64::MIN + 1));
    assert!(long.is_expired(0, -i64::MAX));
    // Only whole seconds count.
    let subsecond = RetentionPolicy {
        max_versions: None,
        ttl: Some(Ttl::new(0, 999_999_999)),
    };
    assert!(subsecond.is_expired(5, 5));
}

#[test]
fn number_is_judged_before_age() {
    let both = policy(Some(2), Some(10));

    assert_eq!(None, both.judge_version(100, 2, 91));
    assert_eq!(
        Some(CompactionDeleteReason::MaxVersions),
        both.judge_version(100, 3, 91),
    );
    assert_eq!(
        Some(CompactionDeleteReason::Ttl),
        both.judge_version(100, 1, 90),
    );
    assert_eq!(
        Some(CompactionDeleteReason::MaxVersions),
        both.judge_version(100, 3, 90),
    );
}

#[test]
fn clock_readings_saturate() {
    assert_eq!(7, unix_seconds(7));
    assert_eq!(i64::MAX, unix_seconds(i64::MAX as u64));
    assert_eq!(i64::MAX, unix_seconds(u64::MAX));
}

#[test]
fn versions_are_counted_per_group() {
    let sink = Sink::default();
    let config = AuditConfig::new(sink.clone(), AuditFailureMode::FailClosed);
    let policy =
        SecureCompactionPolicy::<u8, Sink>::new("events", policy(Some(2), Some(50)), Some(config))
            .unwrap();
    let mut filter = SecureRetentionFilter::new(policy.clone(), 100);
    let mut verdicts = vec![];
    for (row, visibility, timestamp) in [
        ("a", "x", 99),
        ("a", "x", 98),
        ("a", "x", 97),
        ("a", "y", 96),
        ("a", "y", 50),
        ("b", "y", 95),
    ] {
        verdicts.push(filter.filter_item(&key(row, visibility, timestamp)).unwrap());
    }

    assert_eq!(
        vec![
            Verdict::Keep,
            Verdict::Keep,
            Verdict::Remove,
            Verdict::Keep,
            Verdict::Remove,
            Verdict::Keep,
        ],
        verdicts,
    );
    assert_eq!(
        vec![
            ("events".to_string(), CompactionDeleteReason::MaxVersions),
            ("events".to_string(), CompactionDeleteReason::Ttl),
        ],
        *sink.deletions.lock().unwrap(),
    );
}

#[test]
fn compaction_fails_closed() {
    let strict = AuditConfig::new(
        Sink {
            fail: true,
            ..Sink::default()
        },
        AuditFailureMode::FailClosed,
    );
    let lenient = AuditConfig::new(
        Sink {
            fail: true,
            ..Sink::default()
        },
        AuditFailureMode::BestEffort,
    );
    let filter = |config| {
        let policy = SecureCompactionPolicy::<u8, Sink>::new(
            "events",
            policy(None, Some(1)),
            Some(config),
        );
        SecureRetentionFilter::new(policy.unwrap(), 100)
    };

    assert_eq!(
        Err(Error::Audit("audit sink failed")),
        filter(strict.clone()).filter_item(&key("a", "x", 1)),
    );
    assert_eq!(
        Ok(Verdict::Remove),
        filter(lenient).filter_item(&key("a", "x", 1)),
    );
    assert_eq!(
        Err(Error::InvalidCompositeKey("unsupported composite key version")),
        filter(strict).filter_item(b"stray"),
    );
    let silent = SecureCompactionPolicy::<u8, NoAuditSink>::new("e", policy(Some(1), None), None);
    let mut silent = SecureRetentionFilter::new(silent.unwrap(), 0);
    assert!(silent.has_room());
    assert_eq!(Ok(Verdict::Keep), silent.filter_item(&key("a", "x", 2)));
    assert_eq!(Ok(Verdict::Remove), silent.filter_item(&key("a", "x", 1)));
}

#[test]
fn answers_of_a_sink_are_judged_by_mode() {
    let failure = Err(Error::Crypto("anything"));

    assert_eq!(Ok(()), judge_recording(AuditFailureMode::BestEffort, failure));
    assert_eq!(
        Err(Error::Audit("audit sink failed")),
        judge_recording(AuditFailureMode::FailClosed, failure),
    );
    assert_eq!(Ok(()), judge_recording(AuditFailureMode::FailClosed, Ok(())));
    assert_eq!(Ok(Verdict::Remove), judge_removal(Ok(())));
    assert_eq!(
        Err(Error::Audit("audit sink failed")),
        judge_removal(Err(Error::Audit("audit sink failed"))),
    );
    let event: AuditEvent<'_, u8> = AuditEvent::PolicyViolation { keyspace: "events" };
    assert_eq!(Ok(()), NoAuditSink.record(event));
}

#[test]
fn nanoseconds_carry_over_into_seconds() {
    assert_eq!(Ttl::from_secs(3), Ttl::new(1, 2_000_000_000));
    assert_eq!(4, Ttl::new(0, 4_000_000_001).as_secs());
    assert_eq!(Ttl::new(4, 1), Ttl::new(0, 4_000_000_001));
    let carried = RetentionPolicy {
        max_versions: None,
        ttl: Some(Ttl::new(0, 2_000_000_000)),
    };
    assert!(carried.is_expired(10, 8));
    assert!(!carried.is_expired(10, 9));
}

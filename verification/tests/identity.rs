//! Tokens, message identifiers and timeouts.
use coaptic::app::identity::{AppIds, Source};
use coaptic::app::{IdentityError, RandomSource};
use coaptic::message::Transmission;
use coaptic::BuildError;
use core::sync::atomic::{AtomicU32, AtomicUsize, Ordering};

struct Fill(fn(&mut [u8]) -> bool);

impl RandomSource for Fill {
    fn fill(&self, bytes: &mut [u8]) -> bool {
        (self.0)(bytes)
    }
}

#[test]
fn jitter_covers_closed_rfc_interval_and_bounds_rejection_work() {
    static VALUE: AtomicU32 = AtomicU32::new(0);
    static CALLS: AtomicUsize = AtomicUsize::new(0);
    fn fill(bytes: &mut [u8]) -> bool {
        if bytes.len() == 4 {
            CALLS.fetch_add(1, Ordering::SeqCst);
            bytes.copy_from_slice(&VALUE.load(Ordering::SeqCst).to_be_bytes());
        } else {
            bytes.fill(0);
        }
        true
    }
    let mut ids = AppIds::new(Some(Source::random(Fill(fill)))).ok().unwrap();
    for value in 0..=1000 {
        VALUE.store(value, Ordering::SeqCst);
        ids.next(0).unwrap();
        assert_eq!(ids.jitter(), value);
        assert_eq!(Transmission::initial_timeout_ms(ids.jitter()), 2000 + value);
    }
    VALUE.store(u32::MAX, Ordering::SeqCst);
    CALLS.store(0, Ordering::SeqCst);
    let issued = ids.issued();
    assert_eq!(ids.next(0), Err(IdentityError::RandomnessUnavailable));
    assert_eq!(CALLS.load(Ordering::SeqCst), 8);
    assert_eq!(ids.issued(), issued);
}

#[test]
fn mid_wrap_waits_from_last_issue_and_clock_rollback_cannot_shorten_wait() {
    let mut ids = AppIds::new(Some(Source::Test)).ok().unwrap();
    let mut seen = [false; 65536];
    for i in 0..65536 {
        let now = if i == 65534 { 5000 } else { 1000 };
        let mid = ids.next(now).unwrap().get() as usize;
        assert!(!seen[mid]);
        seen[mid] = true;
    }
    assert_eq!(ids.next(251_999), Err(IdentityError::MessageIdExhausted));
    assert_eq!(ids.next(252_000).unwrap().get(), 1);
}

#[test]
fn a_source_is_required_and_must_not_fail() {
    assert_eq!(AppIds::new(None).err(), Some(BuildError::RandomnessRequired));
    let broken = Source::random(Fill(|_| false));
    assert_eq!(AppIds::new(Some(broken)).err(), Some(BuildError::RandomnessUnavailable));
}

#[test]
fn tokens_are_counted_or_drawn() {
    let mut ids = AppIds::new(Some(Source::Test)).ok().unwrap();
    assert_eq!(ids.token().unwrap().as_bytes(), &[0, 0, 0, 1]);
    assert_eq!(ids.token().unwrap().as_bytes(), &[0, 0, 0, 2]);
    let sevens = Source::random(Fill(|bytes| {
        bytes.fill(7);
        true
    }));
    let mut ids = AppIds::new(Some(sevens)).ok().unwrap();
    assert_eq!(ids.token().unwrap().as_bytes(), &[7; 8]);
    assert_eq!(ids.next(0).unwrap().get(), 0x0707);
}

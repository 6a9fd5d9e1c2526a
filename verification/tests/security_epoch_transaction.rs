use salpa::platform::security_epoch::{
    prepare, ApprovedPlan, ObservedState, PlanError, PreparedChange, SlotEvidence,
};
use salpa::platform::security_epoch_transaction::{
    controller_commands_idle, Backend, Snapshot, Transaction, TransactionError,
};

#[test]
fn idle_requires_two_clear_command_samples() {
    for (samples, expected) in [
        ([0, 0], true),
        ([0, 1], false),
        ([0, 2], false),
        ([1, 0], false),
        ([2, 0], false),
    ] {
        let mut values = samples.into_iter();
        assert_eq!(
            controller_commands_idle(|| values.next().unwrap()),
            expected
        );
    }
}

#[test]
fn a_busy_first_sample_is_not_sampled_again() {
    let mut reads = 0;
    assert!(!controller_commands_idle(|| {
        reads += 1;
        3
    }));
    assert_eq!(reads, 1);
    let mut reads = 0;
    assert!(controller_commands_idle(|| {
        reads += 1;
        4
    }));
    assert_eq!(reads, 2);
}

#[derive(Clone, Copy, Debug, Eq, PartialEq)]
enum Fault {
    Healthy,
    Clock,
    Busy,
    Timing,
    RefreshBefore,
    StaleBefore,
    CodingBefore,
    ClearBefore,
    WrongData,
    StaleAfterStaging,
    CodingAfterStaging,
    BusyAfterStaging,
    PartialBurn,
    UnrelatedBurn,
    ReportedBurnFailure,
    ClearAfter,
    RefreshAfter,
    CodingAfter,
}

struct Fake {
    fault: Fault,
    state: Snapshot,
    staged: [u32; 11],
    staged_once: bool,
    burns: usize,
    clears: usize,
    refreshes: usize,
}

fn fixture(fault: Fault) -> (Fake, PreparedChange) {
    let block0 = [0x100, 1, 7 << 18, 1 << 20, 0, 0];
    let plan = ApprovedPlan {
        device_digest: [1; 32],
        bootloader_digest: [2; 32],
        trusted_root_digest: [3; 32],
        expected_block0: block0,
        qualified_image_digests: [[4; 32]; 2],
        target_epoch: 4,
    };
    let observed = ObservedState {
        device_digest: plan.device_digest,
        bootloader_digest: plan.bootloader_digest,
        trusted_root_digest: plan.trusted_root_digest,
        block0,
        running_slot: 0,
        slots: [SlotEvidence {
            signature_verified: true,
            metadata_valid: true,
            secure_version: 4,
            signed_content_digest: [4; 32],
        }; 2],
    };
    let fake = Fake {
        fault,
        state: Snapshot {
            block0,
            repeat_errors: [0; 5],
        },
        staged: [0xa5; 11],
        staged_once: false,
        burns: 0,
        clears: 0,
        refreshes: 0,
    };
    (fake, prepare(&plan, &observed).unwrap())
}

impl Backend for Fake {
    fn apb_hz(&self) -> u32 {
        if self.fault == Fault::Clock {
            40_000_000
        } else {
            80_000_000
        }
    }

    fn idle(&self) -> bool {
        self.fault != Fault::Busy && !(self.fault == Fault::BusyAfterStaging && self.staged_once)
    }

    fn set_timing(&mut self) -> bool {
        self.fault != Fault::Timing
    }

    fn refresh(&mut self) -> bool {
        self.refreshes += 1;
        !matches!(
            (self.fault, self.refreshes),
            (Fault::RefreshBefore, 1) | (Fault::RefreshAfter, 2)
        )
    }

    fn snapshot(&self) -> Snapshot {
        let mut state = self.state;
        if self.fault == Fault::StaleBefore
            || (self.fault == Fault::StaleAfterStaging && self.staged_once)
        {
            state.block0[0] ^= 1;
        }
        if self.fault == Fault::CodingBefore
            || (self.fault == Fault::CodingAfterStaging && self.staged_once)
            || (self.fault == Fault::CodingAfter && self.burns > 0)
        {
            state.repeat_errors[3] = 1 << 11;
        }
        state
    }

    fn clear_staging(&mut self) {
        self.clears += 1;
        self.staged = [0; 11];
        if matches!(
            (self.fault, self.clears),
            (Fault::ClearBefore, 1) | (Fault::ClearAfter, 2)
        ) {
            self.staged[10] = 1;
        }
    }

    fn staging(&self) -> [u32; 11] {
        self.staged
    }

    fn stage_counter(&mut self, words: [u32; 8]) {
        self.staged[..8].copy_from_slice(&words);
        self.staged_once = true;
        if self.fault == Fault::WrongData {
            self.staged[0] = 1 << 18;
        }
    }

    fn program_block0(&mut self) -> bool {
        self.burns += 1;
        assert_eq!(self.burns, 1);
        assert_eq!(self.staged, [0, 0, 0, 0, 15 << 11, 0, 0, 0, 0, 0, 0]);
        self.state.block0[4] |= if self.fault == Fault::PartialBurn {
            3 << 11
        } else {
            15 << 11
        };
        if self.fault == Fault::UnrelatedBurn {
            self.state.block0[0] |= 1 << 18;
        }
        self.fault != Fault::ReportedBurnFailure
    }
}

#[test]
fn a_successful_attempt_clears_staging_and_refreshes_actual_readback() {
    let (backend, change) = fixture(Fault::Healthy);
    let mut transaction = Transaction::new(backend);
    assert_eq!(transaction.attempt(change), Ok(()));
    assert_eq!(transaction.backend().burns, 1);
    assert_eq!(transaction.backend().clears, 2);
    assert_eq!(transaction.backend().refreshes, 2);
    assert_eq!(transaction.backend().staged, [0; 11]);
    assert_eq!(
        transaction.attempt(fixture(Fault::Healthy).1),
        Err(TransactionError::AlreadyAttempted)
    );
}

#[test]
fn every_preflight_failure_prevents_programming_and_latches_the_attempt() {
    for fault in [
        Fault::Clock,
        Fault::Busy,
        Fault::Timing,
        Fault::RefreshBefore,
        Fault::StaleBefore,
        Fault::CodingBefore,
        Fault::ClearBefore,
        Fault::WrongData,
        Fault::StaleAfterStaging,
        Fault::CodingAfterStaging,
        Fault::BusyAfterStaging,
    ] {
        let (backend, change) = fixture(fault);
        let mut transaction = Transaction::new(backend);
        assert!(transaction.attempt(change).is_err(), "{fault:?}");
        assert_eq!(transaction.backend().burns, 0, "{fault:?}");
        if transaction.backend().staged_once {
            assert_eq!(transaction.backend().staged, [0; 11], "{fault:?}");
        }
        assert_eq!(
            transaction.attempt(fixture(Fault::Healthy).1),
            Err(TransactionError::AlreadyAttempted),
            "{fault:?}"
        );
    }
}

#[test]
fn uncertain_results_are_never_reported_as_success_or_retried() {
    for (fault, expected) in [
        (
            Fault::PartialBurn,
            TransactionError::State(PlanError::Readback),
        ),
        (
            Fault::UnrelatedBurn,
            TransactionError::State(PlanError::Readback),
        ),
        (Fault::ReportedBurnFailure, TransactionError::Program),
        (Fault::ClearAfter, TransactionError::Staging),
        (Fault::RefreshAfter, TransactionError::Refresh),
        (Fault::CodingAfter, TransactionError::Coding),
    ] {
        let (backend, change) = fixture(fault);
        let mut transaction = Transaction::new(backend);
        assert_eq!(transaction.attempt(change), Err(expected), "{fault:?}");
        assert_eq!(transaction.backend().burns, 1, "{fault:?}");
        assert_eq!(transaction.backend().clears, 2, "{fault:?}");
        assert_eq!(transaction.backend().refreshes, 2, "{fault:?}");
        assert_eq!(
            transaction.attempt(fixture(Fault::Healthy).1),
            Err(TransactionError::AlreadyAttempted),
            "{fault:?}"
        );
        assert_eq!(transaction.backend().burns, 1, "{fault:?}");
    }
}

#[test]
fn preflight_failures_report_their_own_errors() {
    for (fault, expected) in [
        (Fault::Clock, TransactionError::Clock),
        (Fault::Busy, TransactionError::Busy),
        (Fault::Timing, TransactionError::Timing),
        (Fault::RefreshBefore, TransactionError::Refresh),
        (
            Fault::StaleBefore,
            TransactionError::State(PlanError::ChangedEfuses),
        ),
        (Fault::CodingBefore, TransactionError::Coding),
        (Fault::ClearBefore, TransactionError::Staging),
        (Fault::WrongData, TransactionError::Staging),
        (
            Fault::StaleAfterStaging,
            TransactionError::State(PlanError::ChangedEfuses),
        ),
        (Fault::CodingAfterStaging, TransactionError::Coding),
        (Fault::BusyAfterStaging, TransactionError::Busy),
    ] {
        let (backend, change) = fixture(fault);
        let mut transaction = Transaction::new(backend);
        assert_eq!(transaction.attempt(change), Err(expected), "{fault:?}");
    }
}

#[test]
fn status_codes_are_stable() {
    assert_eq!(TransactionError::AlreadyAttempted.status_code(), 1);
    assert_eq!(TransactionError::State(PlanError::Readback).status_code(), 7);
    assert_eq!(TransactionError::Program.status_code(), 9);
}

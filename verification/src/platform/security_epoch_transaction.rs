//! A single counter-programming attempt, independent of the hardware adapter.
//!
//! The caller must obtain fresh physical approval and exclusive access to the
//! eFuse peripheral. Constructing a plan or this transaction grants no approval.
//! A backend must implement BLOCK0 only, never a caller-selected key block.

use vstd::prelude::*;
use crate::platform::security_epoch::{ChangeModel, PlanError, PreparedChange, FIELD_SHIFT};

verus! {

/// The only APB clock this maintenance profile qualifies.
pub const QUALIFIED_APB_HZ: u32 = 80_000_000;

#[derive(Clone, Copy, Debug, PartialEq, Eq)]
pub struct Snapshot {
    pub block0: [u32; 6],
    pub repeat_errors: [u32; 5],
}

/// The staging area includes all eight data words and three RS check words.
/// BLOCK0 uses repetition coding; its RS staging words must remain zero.
pub trait Backend {
    fn apb_hz(&self) -> u32;

    fn idle(&self) -> bool;

    fn set_timing(&mut self) -> bool;

    fn refresh(&mut self) -> bool;

    fn snapshot(&self) -> Snapshot;

    fn clear_staging(&mut self);

    fn staging(&self) -> [u32; 11];

    fn stage_counter(&mut self, words: [u32; 8]);

    fn program_block0(&mut self) -> bool;
}

#[derive(Clone, Copy, Debug, PartialEq, Eq, Structural)]
pub enum TransactionError {
    AlreadyAttempted,
    Clock,
    Busy,
    Timing,
    Refresh,
    Coding,
    State(PlanError),
    Staging,
    Program,
}

impl TransactionError {
    pub open spec fn spec_status_code(self) -> u8 {
        match self {
            TransactionError::AlreadyAttempted => 1,
            TransactionError::Clock => 2,
            TransactionError::Busy => 3,
            TransactionError::Timing => 4,
            TransactionError::Refresh => 5,
            TransactionError::Coding => 6,
            TransactionError::State(_) => 7,
            TransactionError::Staging => 8,
            TransactionError::Program => 9,
        }
    }

    /// Stable, non-secret diagnostic for the maintenance failure response.
    pub fn status_code(self) -> (r: u8)
        ensures
            r == self.spec_status_code(),
    {
        match self {
            TransactionError::AlreadyAttempted => 1,
            TransactionError::Clock => 2,
            TransactionError::Busy => 3,
            TransactionError::Timing => 4,
            TransactionError::Refresh => 5,
            TransactionError::Coding => 6,
            TransactionError::State(_) => 7,
            TransactionError::Staging => 8,
            TransactionError::Program => 9,
        }
    }
}

/// Follow espefuse v5.4.0's ESP32-S2 command-idle check. READ_CMD must be
/// sampled twice due to a hardware clock issue. The STATUS reset value is
/// not an idle-state contract: the observed idle controller reports state 1.
pub fn controller_commands_idle<F: FnMut() -> u32>(mut read_command: F) -> (r: bool)
    requires
        forall|f: F| call_requires(f, ()),
    ensures
        (forall|f: F, v: u32| call_ensures(f, (), v) ==> v & 3 == 0) ==> r,
        (forall|f: F, v: u32| call_ensures(f, (), v) ==> v & 3 != 0) ==> !r,
        r ==> exists|f: F, g: F, a: u32, b: u32|
            call_ensures(f, (), a) && call_ensures(g, (), b) && a & 3 == 0 && b & 3 == 0,
        !r ==> exists|f: F, v: u32| call_ensures(f, (), v) && v & 3 != 0,
{
    let first = read_command();
    if first & 3 != 0 {
        return false;
    }
    let second = read_command();
    second & 3 == 0
}

/// One call made to the backend, with what it returned.
pub enum BackendCall {
    ApbHz(u32),
    Idle(bool),
    SetTiming(bool),
    Refresh(bool),
    Snapshot(Snapshot),
    ClearStaging,
    Staging([u32; 11]),
    StageCounter([u32; 8]),
    Program(bool),
}

/// The BLOCK0 program-register words that set exactly the prepared bits.
pub open spec fn counter_words(change: ChangeModel) -> Seq<u32> {
    seq![0u32, 0, 0, 0, (change.delta as u32) << FIELD_SHIFT, 0, 0, 0]
}

/// The staging area once the counter words are staged: the eight data words,
/// then three zero RS check words.
pub open spec fn staged_words(change: ChangeModel) -> Seq<u32> {
    counter_words(change) + seq![0u32, 0, 0]
}

/// An empty staging area.
pub open spec fn clear_staging_words() -> Seq<u32> {
    Seq::new(11, |_i: int| 0u32)
}

/// The check made on each readback before programming: no repetition-coding
/// error, and BLOCK0 unchanged since the change was prepared.
pub open spec fn snapshot_check(change: ChangeModel, s: Snapshot) -> Result<(), TransactionError> {
    if s.repeat_errors@ != Seq::new(5, |_i: int| 0u32) {
        Err(TransactionError::Coding)
    } else if s.block0@ != change.before {
        Err(TransactionError::State(PlanError::ChangedEfuses))
    } else {
        Ok(())
    }
}

/// The result of the attempt when the log holds exactly `n` calls.
pub open spec fn ended(
    calls: Seq<BackendCall>,
    n: int,
    r: Result<(), TransactionError>,
) -> Option<Result<(), TransactionError>> {
    if calls.len() == n {
        Some(r)
    } else {
        None
    }
}

/// The result after the one programming call, from what the backend reported
/// then: staging cleared, a refreshed readback without coding errors that
/// holds exactly the prepared BLOCK0, and a successful program call, checked
/// in that order.
pub open spec fn settled(
    change: ChangeModel,
    programmed: bool,
    cleared: Seq<u32>,
    refreshed: bool,
    after: Snapshot,
) -> Result<(), TransactionError> {
    if cleared != clear_staging_words() {
        Err(TransactionError::Staging)
    } else if !refreshed {
        Err(TransactionError::Refresh)
    } else if after.repeat_errors@ != Seq::new(5, |_i: int| 0u32) {
        Err(TransactionError::Coding)
    } else if after.block0@ != change.after {
        Err(TransactionError::State(PlanError::Readback))
    } else if !programmed {
        Err(TransactionError::Program)
    } else {
        Ok(())
    }
}

/// The calls of one attempt that reaches the programming call: clock, idle,
/// timing, refresh and readback checks, a cleared and verified staging area,
/// the staged counter words read back exactly, a second idle check and a
/// second readback, then the single program call.
pub open spec fn reaches_program(change: ChangeModel, c: Seq<BackendCall>) -> bool {
    &&& c.len() >= 12
    &&& c[0] == BackendCall::ApbHz(QUALIFIED_APB_HZ)
    &&& c[1] == BackendCall::Idle(true)
    &&& c[2] == BackendCall::SetTiming(true)
    &&& c[3] == BackendCall::Refresh(true)
    &&& c[4] is Snapshot && snapshot_check(change, c[4]->Snapshot_0) is Ok
    &&& c[5] is ClearStaging
    &&& c[6] is Staging && c[6]->Staging_0@ == clear_staging_words()
    &&& c[7] is StageCounter && c[7]->StageCounter_0@ == counter_words(change)
    &&& c[8] is Staging && c[8]->Staging_0@ == staged_words(change)
    &&& c[9] == BackendCall::Idle(true)
    &&& c[10] is Snapshot && snapshot_check(change, c[10]->Snapshot_0) is Ok
    &&& c[11] is Program
}

/// What one attempt returns, given the calls it made and what each call
/// returned; `None` when the calls are not those that an attempt makes.
pub open spec fn attempt_outcome(change: ChangeModel, c: Seq<BackendCall>) -> Option<
    Result<(), TransactionError>,
> {
    if c.len() < 1 || !(c[0] is ApbHz) {
        None
    } else if c[0]->ApbHz_0 != QUALIFIED_APB_HZ {
        ended(c, 1, Err(TransactionError::Clock))
    } else if c.len() < 2 || !(c[1] is Idle) {
        None
    } else if !c[1]->Idle_0 {
        ended(c, 2, Err(TransactionError::Busy))
    } else if c.len() < 3 || !(c[2] is SetTiming) {
        None
    } else if !c[2]->SetTiming_0 {
        ended(c, 3, Err(TransactionError::Timing))
    } else if c.len() < 4 || !(c[3] is Refresh) {
        None
    } else if !c[3]->Refresh_0 {
        ended(c, 4, Err(TransactionError::Refresh))
    } else if c.len() < 5 || !(c[4] is Snapshot) {
        None
    } else if snapshot_check(change, c[4]->Snapshot_0) is Err {
        ended(c, 5, snapshot_check(change, c[4]->Snapshot_0))
    } else if c.len() < 7 || !(c[5] is ClearStaging) || !(c[6] is Staging) {
        None
    } else if c[6]->Staging_0@ != clear_staging_words() {
        ended(c, 7, Err(TransactionError::Staging))
    } else if c.len() < 9 || !(c[7] is StageCounter) || c[7]->StageCounter_0@ != counter_words(
        change,
    ) || !(c[8] is Staging) {
        None
    } else if c[8]->Staging_0@ != staged_words(change) {
        if c.len() < 10 || !(c[9] is ClearStaging) {
            None
        } else {
            ended(c, 10, Err(TransactionError::Staging))
        }
    } else if c.len() < 10 || !(c[9] is Idle) {
        None
    } else if !c[9]->Idle_0 {
        if c.len() < 11 || !(c[10] is ClearStaging) {
            None
        } else {
            ended(c, 11, Err(TransactionError::Busy))
        }
    } else if c.len() < 11 || !(c[10] is Snapshot) {
        None
    } else if snapshot_check(change, c[10]->Snapshot_0) is Err {
        if c.len() < 12 || !(c[11] is ClearStaging) {
            None
        } else {
            ended(c, 12, snapshot_check(change, c[10]->Snapshot_0))
        }
    } else if c.len() != 16 || !(c[11] is Program) || !(c[12] is ClearStaging) || !(
    c[13] is Staging) || !(c[14] is Refresh) || !(c[15] is Snapshot) {
        None
    } else {
        Some(
            settled(
                change,
                c[11]->Program_0,
                c[13]->Staging_0@,
                c[14]->Refresh_0,
                c[15]->Snapshot_0,
            ),
        )
    }
}

fn same_words(a: &[u32], b: &[u32]) -> (r: bool)
    ensures
        r == (a@ == b@),
{
    if a.len() != b.len() {
        return false;
    }
    let n = a.len();
    let mut i: usize = 0;
    while i < n
        invariant
            i <= n,
            n == a@.len(),
            n == b@.len(),
            forall|j: int| 0 <= j < i ==> a@[j] == b@[j],
        decreases n - i,
    {
        if a[i] != b[i] {
            return false;
        }
        i = i + 1;
    }
    assert(a@ =~= b@);
    true
}

fn check_before(change: &PreparedChange, snapshot: Snapshot) -> (r: Result<(), TransactionError>)
    ensures
        r == snapshot_check(change@, snapshot),
{
    let no_errors = [0u32; 5];
    assert(no_errors@ =~= Seq::new(5, |_i: int| 0u32));
    if !same_words(&snapshot.repeat_errors, &no_errors) {
        return Err(TransactionError::Coding);
    }
    match change.recheck_before(&snapshot.block0) {
        Ok(()) => Ok(()),
        Err(e) => Err(TransactionError::State(e)),
    }
}

/// One attempt per instance, including failed preflight. Never retry a burn
/// automatically after a partial result, timeout or transport interruption.
pub struct Transaction<B> {
    backend: B,
    attempted: bool,
    calls: Ghost<Seq<BackendCall>>,
}

impl<B> Transaction<B> {
    /// Whether the one attempt has been made.
    pub closed spec fn spec_attempted(&self) -> bool {
        self.attempted
    }

    /// Every call made to the backend so far, in order, with its result.
    pub closed spec fn spec_calls(&self) -> Seq<BackendCall> {
        self.calls@
    }

    pub closed spec fn spec_backend(&self) -> B {
        self.backend
    }

    /// Before the attempt no backend call has been made.
    pub closed spec fn wf(&self) -> bool {
        !self.attempted ==> self.calls@.len() == 0
    }

    /// The backend, as the attempt left it.
    pub fn backend(&self) -> (r: &B)
        ensures
            *r == self.spec_backend(),
    {
        &self.backend
    }
}

impl<B: Backend> Transaction<B> {
    pub fn new(backend: B) -> (r: Self)
        ensures
            r.wf(),
            !r.spec_attempted(),
            r.spec_calls() == Seq::<BackendCall>::empty(),
            r.spec_backend() == backend,
    {
        Transaction { backend, attempted: false, calls: Ghost(Seq::empty()) }
    }
}


impl<B: Backend> Transaction<B> {
    /// Makes the one programming attempt of this transaction. A second attempt
    /// makes no backend call. Every preflight failure returns before the
    /// program call; a failure after staging clears the staging area first.
    /// After the program call the result is success only when the staging
    /// area reads back clear, a refresh succeeds, the readback has no coding
    /// error and holds exactly the prepared BLOCK0, and the backend reported
    /// the program call successful.
    pub fn attempt(&mut self, change: PreparedChange) -> (r: Result<(), TransactionError>)
        requires
            old(self).wf(),
        ensures
            final(self).wf(),
            final(self).spec_attempted(),
            old(self).spec_attempted() ==> r == Err::<(), TransactionError>(
                TransactionError::AlreadyAttempted,
            ) && final(self).spec_calls() == old(self).spec_calls() && final(self).spec_backend()
                == old(self).spec_backend(),
            !old(self).spec_attempted() ==> attempt_outcome(change@, final(self).spec_calls())
                == Some(r),
    {
        if self.attempted {
            return Err(TransactionError::AlreadyAttempted);
        }
        self.attempted = true;
        let ghost m = change@;
        let zero_staging = [0u32; 11];
        assert(zero_staging@ =~= clear_staging_words());
        // This maintenance profile qualifies only the fixed 80 MHz APB setup.
        let hz = self.backend.apb_hz();
        self.calls = Ghost(self.calls@.push(BackendCall::ApbHz(hz)));
        if hz != QUALIFIED_APB_HZ {
            return Err(TransactionError::Clock);
        }
        let idle = self.backend.idle();
        self.calls = Ghost(self.calls@.push(BackendCall::Idle(idle)));
        if !idle {
            return Err(TransactionError::Busy);
        }
        let timing = self.backend.set_timing();
        self.calls = Ghost(self.calls@.push(BackendCall::SetTiming(timing)));
        if !timing {
            return Err(TransactionError::Timing);
        }
        let refreshed = self.backend.refresh();
        self.calls = Ghost(self.calls@.push(BackendCall::Refresh(refreshed)));
        if !refreshed {
            return Err(TransactionError::Refresh);
        }
        let before = self.backend.snapshot();
        self.calls = Ghost(self.calls@.push(BackendCall::Snapshot(before)));
        let checked = check_before(&change, before);
        if checked.is_err() {
            return checked;
        }
        self.backend.clear_staging();
        self.calls = Ghost(self.calls@.push(BackendCall::ClearStaging));
        let cleared = self.backend.staging();
        self.calls = Ghost(self.calls@.push(BackendCall::Staging(cleared)));
        if !same_words(&cleared, &zero_staging) {
            return Err(TransactionError::Staging);
        }
        let words = change.program_words();
        let expected = [
            words[0],
            words[1],
            words[2],
            words[3],
            words[4],
            words[5],
            words[6],
            words[7],
            0u32,
            0u32,
            0u32,
        ];
        assert(expected@ =~= staged_words(m));
        self.backend.stage_counter(words);
        self.calls = Ghost(self.calls@.push(BackendCall::StageCounter(words)));
        let staging = self.backend.staging();
        self.calls = Ghost(self.calls@.push(BackendCall::Staging(staging)));
        if !same_words(&staging, &expected) {
            self.backend.clear_staging();
            self.calls = Ghost(self.calls@.push(BackendCall::ClearStaging));
            return Err(TransactionError::Staging);
        }
        let idle_again = self.backend.idle();
        self.calls = Ghost(self.calls@.push(BackendCall::Idle(idle_again)));
        if !idle_again {
            self.backend.clear_staging();
            self.calls = Ghost(self.calls@.push(BackendCall::ClearStaging));
            return Err(TransactionError::Busy);
        }
        let staged = self.backend.snapshot();
        self.calls = Ghost(self.calls@.push(BackendCall::Snapshot(staged)));
        let rechecked = check_before(&change, staged);
        if rechecked.is_err() {
            self.backend.clear_staging();
            self.calls = Ghost(self.calls@.push(BackendCall::ClearStaging));
            return rechecked;
        }
        // Exactly one physical call. Even an error result may have burned bits.
        let programmed = self.backend.program_block0();
        self.calls = Ghost(self.calls@.push(BackendCall::Program(programmed)));
        self.backend.clear_staging();
        self.calls = Ghost(self.calls@.push(BackendCall::ClearStaging));
        let left = self.backend.staging();
        self.calls = Ghost(self.calls@.push(BackendCall::Staging(left)));
        let refreshed_after = self.backend.refresh();
        self.calls = Ghost(self.calls@.push(BackendCall::Refresh(refreshed_after)));
        let after = self.backend.snapshot();
        self.calls = Ghost(self.calls@.push(BackendCall::Snapshot(after)));
        let no_errors = [0u32; 5];
        assert(no_errors@ =~= Seq::new(5, |_i: int| 0u32));
        if !same_words(&left, &zero_staging) {
            return Err(TransactionError::Staging);
        }
        if !refreshed_after {
            return Err(TransactionError::Refresh);
        }
        if !same_words(&after.repeat_errors, &no_errors) {
            return Err(TransactionError::Coding);
        }
        match change.verify_after(&after.block0) {
            Ok(()) => {},
            Err(e) => {
                return Err(TransactionError::State(e));
            },
        }
        if !programmed {
            return Err(TransactionError::Program);
        }
        Ok(())
    }
}

/// The backend is asked to program at most once per attempt, at one fixed
/// point, and only after every preflight check passed; an attempt that
/// staged the counter always clears the staging area before it returns; and
/// success means the one program call reported success and the refreshed
/// readback holds exactly the prepared BLOCK0 without coding errors.
pub proof fn lemma_attempt_programs_once_after_preflight(change: ChangeModel, c: Seq<BackendCall>)
    requires
        attempt_outcome(change, c) is Some,
    ensures
        forall|i: int| 0 <= i < c.len() && #[trigger] c[i] is Program ==> i == 11,
        c.len() > 11 && c[11] is Program ==> reaches_program(change, c) && c.len() == 16,
        c.len() > 8 ==> c[c.len() - 1] is ClearStaging || (c.len() == 16
            && c[12] is ClearStaging),
        attempt_outcome(change, c) == Some(Ok::<(), TransactionError>(())) ==> {
            &&& reaches_program(change, c)
            &&& c[11] == BackendCall::Program(true)
            &&& c[15] is Snapshot
            &&& c[15]->Snapshot_0.block0@ == change.after
            &&& c[15]->Snapshot_0.repeat_errors@ == Seq::new(5, |_i: int| 0u32)
        },
{
    assert forall|i: int| 0 <= i < c.len() && #[trigger] c[i] is Program implies i == 11 by {
        if i < 11 {
            assert(!(c[i] is Program));
        } else if i > 11 {
            assert(!(c[i] is Program));
        }
    }
}

} // verus!

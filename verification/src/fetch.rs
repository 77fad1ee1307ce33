//! Bookkeeping of a fetch run: which segments are still to be fetched and
//! how many are complete.
use crate::info::DownloadProgress;
use crate::numbers::{decimal_text, push_decimal};
use crate::text::{append_str, from_chars};
use vstd::prelude::*;

verus! {

/// The completed-count of one fetch run. The count only grows and never
/// exceeds the number of segments of the plan.
pub struct FetchState {
    completed: u32,
    total: u32,
}

/// The indices of the segments whose files are not there yet, ascending.
pub open spec fn absent(present: Seq<bool>) -> Seq<usize>
    decreases present.len(),
{
    if present.len() == 0 {
        Seq::<usize>::empty()
    } else if present.last() {
        absent(present.drop_last())
    } else {
        absent(present.drop_last()).push((present.len() - 1) as usize)
    }
}

/// The number of segments whose files are there already.
pub open spec fn count_present(present: Seq<bool>) -> nat
    decreases present.len(),
{
    if present.len() == 0 {
        0
    } else if present.last() {
        count_present(present.drop_last()) + 1
    } else {
        count_present(present.drop_last())
    }
}

/// The message of a progress event: the two counts, separated by `/`.
pub open spec fn count_message(current: nat, total: nat) -> Seq<char> {
    decimal_text(current) + "/"@ + decimal_text(total)
}

impl FetchState {
    #[verifier::type_invariant]
    pub closed spec fn well_formed(self) -> bool {
        self.completed <= self.total
    }

    /// The number of segments that are complete.
    pub closed spec fn completed_count(self) -> u32 {
        self.completed
    }

    /// The number of segments of the plan.
    pub closed spec fn total_count(self) -> u32 {
        self.total
    }

    /// The state of a run over `total` segments of which `completed` are
    /// there already; a count beyond `total` is taken as `total`.
    pub fn new(total: u32, completed: u32) -> (s: Self)
        ensures
            s.total_count() == total,
            s.completed_count() == if completed <= total {
                completed
            } else {
                total
            },
    {
        FetchState {
            completed: if completed <= total {
                completed
            } else {
                total
            },
            total,
        }
    }

    /// The number of segments that are complete.
    pub fn completed(&self) -> (n: u32)
        ensures
            n == self.completed_count(),
            n <= self.total_count(),
    {
        proof {
            use_type_invariant(self);
        }
        self.completed
    }

    /// The number of segments of the plan.
    pub fn total(&self) -> (n: u32)
        ensures
            n == self.total_count(),
    {
        self.total
    }

    /// Whether every segment is complete.
    pub fn is_complete(&self) -> (r: bool)
        ensures
            r == (self.completed_count() == self.total_count()),
    {
        self.completed == self.total
    }

    /// The progress event for the current counts.
    pub fn progress(&self) -> (event: DownloadProgress)
        ensures
            event.stage@ == "downloading"@,
            event.current == self.completed_count(),
            event.total == self.total_count(),
            event.message@ == count_message(
                self.completed_count() as nat,
                self.total_count() as nat,
            ),
    {
        let mut message: Vec<char> = Vec::new();
        push_decimal(&mut message, self.completed as u64);
        append_str(&mut message, "/");
        push_decimal(&mut message, self.total as u64);
        assert(message@ =~= count_message(self.completed as nat, self.total as nat));
        DownloadProgress {
            stage: "downloading".to_owned(),
            current: self.completed,
            total: self.total,
            message: from_chars(&message),
        }
    }

    /// Counts one more segment as complete and gives the progress event
    /// for it. The count stays at the total once it has reached it.
    pub fn record_completion(&mut self) -> (event: DownloadProgress)
        ensures
            final(self).total_count() == old(self).total_count(),
            final(self).completed_count() == if old(self).completed_count()
                < old(self).total_count() {
                (old(self).completed_count() + 1) as u32
            } else {
                old(self).completed_count()
            },
            old(self).completed_count() <= final(self).completed_count(),
            final(self).completed_count() <= final(self).total_count(),
            event.stage@ == "downloading"@,
            event.current == final(self).completed_count(),
            event.total == final(self).total_count(),
            event.message@ == count_message(
                final(self).completed_count() as nat,
                final(self).total_count() as nat,
            ),
    {
        proof {
            use_type_invariant(&*self);
        }
        if self.completed < self.total {
            self.completed = self.completed + 1;
        }
        self.progress()
    }
}

/// What a fetch run begins with.
pub struct FetchPlan {
    /// The state of the run; the segments found in place count as complete.
    pub state: FetchState,
    /// The indices that remain to be fetched, ascending.
    pub pending: Vec<usize>,
    /// One progress event for each segment found in place.
    pub events: Vec<DownloadProgress>,
}

/// Whether `events` are the progress events of `count` completions in a
/// run over `total` segments: one event each, the first with the count
/// one, each next with one more.
pub open spec fn counts_up(events: Seq<DownloadProgress>, count: nat, total: nat) -> bool {
    &&& events.len() == count
    &&& forall|k: int|
        0 <= k < events.len() ==> {
            &&& (#[trigger] events[k]).stage@ == "downloading"@
            &&& events[k].current == k + 1
            &&& events[k].total == total
            &&& events[k].message@ == count_message((k + 1) as nat, total)
        }
}

/// No more segments are present than there are.
pub proof fn lemma_count_present_bound(present: Seq<bool>)
    ensures
        count_present(present) <= present.len(),
    decreases present.len(),
{
    if present.len() > 0 {
        lemma_count_present_bound(present.drop_last());
    }
}

/// Begins a fetch run over a plan of which `present` says, index by index,
/// whether the segment's file is there already.
///
/// Each segment found in place counts as complete at once and has its
/// progress event; the others remain to be fetched, in ascending order.
pub fn plan_fetch(present: &Vec<bool>) -> (plan: FetchPlan)
    requires
        present@.len() <= u32::MAX,
    ensures
        plan.state.total_count() == present@.len(),
        plan.state.completed_count() == count_present(present@),
        plan.pending@ == absent(present@),
        counts_up(plan.events@, count_present(present@), present@.len()),
{
    let mut state = FetchState::new(present.len() as u32, 0);
    let mut pending: Vec<usize> = Vec::new();
    let mut events: Vec<DownloadProgress> = Vec::new();
    let mut i: usize = 0;
    while i < present.len()
        invariant
            i <= present.len() <= u32::MAX,
            state.total_count() == present@.len(),
            state.completed_count() == count_present(present@.take(i as int)),
            pending@ == absent(present@.take(i as int)),
            counts_up(events@, count_present(present@.take(i as int)), present@.len()),
        decreases present.len() - i,
    {
        proof {
            assert(present@.take(i + 1).drop_last() =~= present@.take(i as int));
            lemma_count_present_bound(present@.take(i as int));
        }
        if present[i] {
            let event = state.record_completion();
            events.push(event);
        } else {
            pending.push(i);
        }
        i += 1;
    }
    assert(present@.take(present.len() as int) =~= present@);
    FetchPlan { state, pending, events }
}

/// Where every file is there already, nothing remains to be fetched and
/// every segment counts as complete: a repeated run asks for nothing and
/// reports full progress at once, in one event for each segment, whose
/// counts run from one to the number of segments.
pub proof fn lemma_resume_is_idempotent(present: Seq<bool>, events: Seq<DownloadProgress>)
    requires
        forall|i: int| 0 <= i < present.len() ==> present[i],
        counts_up(events, count_present(present), present.len()),
    ensures
        absent(present).len() == 0,
        count_present(present) == present.len(),
        events.len() == present.len(),
        forall|k: int|
            0 <= k < events.len() ==> (#[trigger] events[k]).current == k + 1 && events[k].total
                == present.len(),
        present.len() > 0 ==> events.last().current == events.last().total,
{
    lemma_all_present(present);
}

/// Where every file is there, none is absent and all count as present.
pub proof fn lemma_all_present(present: Seq<bool>)
    requires
        forall|i: int| 0 <= i < present.len() ==> present[i],
    ensures
        absent(present).len() == 0,
        count_present(present) == present.len(),
    decreases present.len(),
{
    if present.len() > 0 {
        lemma_all_present(present.drop_last());
    }
}

/// What is absent is exactly what is not present: the pending indices are
/// those of the missing files, each once and ascending, and together with
/// the files that are there they account for the whole plan.
pub proof fn lemma_absent_exact(present: Seq<bool>)
    requires
        present.len() <= usize::MAX,
    ensures
        absent(present).len() + count_present(present) == present.len(),
        forall|k: int|
            0 <= k < absent(present).len() ==> (#[trigger] absent(present)[k]) < present.len()
                && !present[absent(present)[k] as int],
        forall|i: int|
            0 <= i < present.len() && !present[i] ==> absent(present).contains(i as usize),
        forall|k: int, l: int|
            0 <= k < l < absent(present).len() ==> absent(present)[k] < absent(present)[l],
    decreases present.len(),
{
    if present.len() > 0 {
        let p = present.drop_last();
        lemma_absent_exact(p);
        let a = absent(present);
        let ap = absent(p);
        assert forall|i: int| 0 <= i < present.len() && !present[i] implies a.contains(
            i as usize,
        ) by {
            if i < p.len() {
                assert(!p[i]);
                assert(ap.contains(i as usize));
                let k = choose|k: int| 0 <= k < ap.len() && ap[k] == i as usize;
                assert(a[k] == i as usize);
            } else {
                assert(a[a.len() - 1] == i as usize);
            }
        }
        assert forall|k: int| 0 <= k < a.len() implies (#[trigger] a[k]) < present.len()
            && !present[a[k] as int] by {
            if k < ap.len() {
                assert(a[k] == ap[k]);
                assert(!p[ap[k] as int]);
            }
        }
    }
}

/// How many hundredths of `total` the part `done` is, rounded down; zero
/// where `total` is zero.
pub open spec fn percent(done: nat, total: nat) -> nat {
    if total == 0 {
        0
    } else {
        done * 100 / total
    }
}

/// The number of whole mebibytes in `bytes`.
pub open spec fn mebibytes(bytes: nat) -> nat {
    bytes / 1_048_576
}

/// The message of a transfer: the mebibytes done and those expected.
pub open spec fn transfer_message(done: nat, total: nat) -> Seq<char> {
    "("@ + decimal_text(mebibytes(done)) + "MB / "@ + decimal_text(mebibytes(total)) + "MB)"@
}

/// The percentage of a transfer of `total` bytes of which `done` are there:
/// `percent`, reduced to 32 bits.
pub fn percent_done(done: u64, total: u64) -> (p: u32)
    ensures
        p == percent(done as nat, total as nat) % 0x1_0000_0000,
        done <= total ==> p <= 100,
{
    if total == 0 {
        return 0;
    }
    let scaled: u128 = done as u128 * 100;
    let quotient: u128 = scaled / total as u128;
    proof {
        if done <= total {
            assert(done * 100 / (total as int) <= 100) by (nonlinear_arith)
                requires
                    0 <= done <= total,
                    total > 0,
            ;
        }
    }
    (quotient % 0x1_0000_0000) as u32
}

/// The progress event of a transfer in one piece: the percentage done out
/// of a hundred, with `transfer_message`.
pub fn transfer_progress(done: u64, total: u64) -> (event: DownloadProgress)
    ensures
        event.stage@ == "downloading"@,
        event.current == percent(done as nat, total as nat) % 0x1_0000_0000,
        event.total == 100,
        event.message@ == transfer_message(done as nat, total as nat),
{
    let mut message: Vec<char> = Vec::new();
    append_str(&mut message, "(");
    push_decimal(&mut message, done / 1_048_576);
    append_str(&mut message, "MB / ");
    push_decimal(&mut message, total / 1_048_576);
    append_str(&mut message, "MB)");
    assert(message@ =~= transfer_message(done as nat, total as nat));
    DownloadProgress {
        stage: "downloading".to_owned(),
        current: percent_done(done, total),
        total: 100,
        message: from_chars(&message),
    }
}

} // verus!

use vstd::prelude::*;

verus! {

/// The most bytes asked of the connection at once while receiving a file.
pub const CHUNK: u64 = 4096;

/// What came of one read from the connection during an upload.
#[derive(PartialEq, Eq, Structural, Clone, Copy, Debug)]
pub enum UploadEvent {
    /// This many bytes arrived and were written to the file.
    Received(usize),
    /// The connection had nothing to give without blocking.
    Stalled,
    /// Reading the connection or writing the file failed.
    Failed,
}

/// What to do next during an upload.
#[derive(PartialEq, Eq, Structural, Clone, Copy, Debug)]
pub enum UploadStep {
    /// Read at most `want` bytes; `remaining` bytes are still owed.
    Read { remaining: u64, want: usize },
    /// The upload is over: reply that the file was created.
    Done,
    /// The upload failed: reply not found.
    Failed,
}

pub open spec fn read_step(remaining: u64) -> UploadStep {
    if remaining == 0 {
        UploadStep::Done
    } else {
        UploadStep::Read {
            remaining,
            want: (if remaining < CHUNK { remaining } else { CHUNK }) as usize,
        }
    }
}

/// The step after `event` when `remaining` bytes were owed. A read of
/// nothing means the peer closed early: the upload stops as it stands.
pub open spec fn next_step(remaining: u64, event: UploadEvent) -> UploadStep {
    match event {
        UploadEvent::Received(n) => if n == 0 {
            UploadStep::Done
        } else {
            read_step((remaining - n) as u64)
        },
        UploadEvent::Stalled => UploadStep::Done,
        UploadEvent::Failed => UploadStep::Failed,
    }
}

fn read_step_of(remaining: u64) -> (r: UploadStep)
    ensures
        r == read_step(remaining),
{
    if remaining == 0 {
        UploadStep::Done
    } else if remaining < CHUNK {
        UploadStep::Read { remaining, want: remaining as usize }
    } else {
        UploadStep::Read { remaining, want: CHUNK as usize }
    }
}

/// The first step of receiving a body of `len` bytes.
pub fn upload_start(len: u64) -> (r: UploadStep)
    ensures
        r == read_step(len),
{
    read_step_of(len)
}

/// The step that follows a read of at most the bytes asked for.
pub fn upload_file(remaining: u64, event: UploadEvent) -> (r: UploadStep)
    requires
        remaining > 0,
        event matches UploadEvent::Received(n) ==> n <= remaining && n <= CHUNK,
    ensures
        r == next_step(remaining, event),
{
    match event {
        UploadEvent::Received(n) => {
            if n == 0 {
                UploadStep::Done
            } else {
                read_step_of(remaining - n as u64)
            }
        },
        UploadEvent::Stalled => UploadStep::Done,
        UploadEvent::Failed => UploadStep::Failed,
    }
}

pub open spec fn amount(e: UploadEvent) -> int {
    match e {
        UploadEvent::Received(n) => n as int,
        _ => 0,
    }
}

/// The sum of the bytes received in `events`.
pub open spec fn received_total(events: Seq<UploadEvent>) -> int
    decreases events.len(),
{
    if events.len() == 0 {
        0
    } else {
        received_total(events.drop_last()) + amount(events.last())
    }
}

/// Runs the steps over `events` from a body of `len` bytes; gives the last step.
pub open spec fn run_upload(len: u64, events: Seq<UploadEvent>) -> UploadStep
    decreases events.len(),
{
    if events.len() == 0 {
        read_step(len)
    } else {
        match run_upload(len, events.drop_last()) {
            UploadStep::Read { remaining, want } => next_step(remaining, events.last()),
            other => other,
        }
    }
}

/// Each event answers a read that was asked for, with no more bytes than asked.
pub open spec fn answers_reads(len: u64, events: Seq<UploadEvent>) -> bool {
    forall|k: int|
        0 <= k < events.len() ==> {
            let step = #[trigger] run_upload(len, events.subrange(0, k));
            step is Read && amount(events[k]) <= step->want
        }
}

/// Every event brought at least one byte.
pub open spec fn all_received(events: Seq<UploadEvent>) -> bool {
    forall|k: int| 0 <= k < events.len() ==> (#[trigger] events[k] is Received) && amount(events[k]) > 0
}

/// While an upload goes on, what is still owed is the declared length less
/// what was received, and no read asks for more than that. When the peer
/// sends every byte it declared, the upload ends having received exactly the
/// declared length.
pub proof fn lemma_upload_accounts(len: u64, events: Seq<UploadEvent>)
    requires
        answers_reads(len, events),
    ensures
        run_upload(len, events) is Read ==> {
            let step = run_upload(len, events);
            &&& step->remaining == len - received_total(events)
            &&& step->remaining > 0
            &&& step->want <= step->remaining
            &&& step->want <= CHUNK
        },
        (run_upload(len, events) is Done && all_received(events)) ==> received_total(events) == len,
    decreases events.len(),
{
    if events.len() > 0 {
        let pre = events.drop_last();
        assert forall|k: int| 0 <= k < pre.len() implies {
            let step = #[trigger] run_upload(len, pre.subrange(0, k));
            step is Read && amount(pre[k]) <= step->want
        } by {
            assert(pre.subrange(0, k) =~= events.subrange(0, k));
            assert(run_upload(len, events.subrange(0, k)) is Read);
        }
        lemma_upload_accounts(len, pre);
        let k = pre.len() as int;
        assert(events.subrange(0, k) =~= pre);
        assert(run_upload(len, events.subrange(0, k)) is Read);
        if all_received(events) {
            assert(all_received(pre)) by {
                assert forall|j: int| 0 <= j < pre.len() implies (#[trigger] pre[j] is Received) && amount(pre[j]) > 0 by {
                    assert(pre[j] == events[j]);
                }
            }
            assert(events[k] is Received);
        }
    }
}

} // verus!

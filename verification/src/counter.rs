//! Message identifiers and the clock.

use vstd::prelude::*;

verus! {

#[verifier::external_type_specification]
#[verifier::external_body]
pub struct ExSystemTime(std::time::SystemTime);

/// The source of message identifiers of a node: the next identifier to
/// hand out. It starts at 1.
#[derive(Debug)]
pub struct MsgIdCounter {
    next: u64,
}

impl View for MsgIdCounter {
    type V = u64;

    closed spec fn view(&self) -> u64 {
        self.next
    }
}

/// The identifier after `id`, wrapping around at the top of `u64`.
pub open spec fn next_id(id: u64) -> u64 {
    if id == u64::MAX {
        0
    } else {
        (id + 1) as u64
    }
}

/// Where a counter starts after a restart, given the largest identifier
/// already used (0 when there is none or it could not be read).
pub open spec fn restart_value(max_id: u64) -> u64 {
    if max_id == 0 {
        1
    } else {
        next_id(max_id)
    }
}

impl MsgIdCounter {
    /// A counter whose first identifier is 1.
    pub fn new() -> (c: MsgIdCounter)
        ensures
            c@ == 1,
    {
        MsgIdCounter { next: 1 }
    }

    /// The identifier that the next call of `new_msg_id` hands out.
    pub fn peek(&self) -> (id: u64)
        ensures
            id == self@,
    {
        self.next
    }
}

/// Hands out the next message identifier and advances the counter by one
/// (wrapping around, as an atomic `fetch_add` does).
pub fn new_msg_id(counter: &mut MsgIdCounter) -> (id: u64)
    ensures
        id == old(counter)@,
        final(counter)@ == next_id(old(counter)@),
{
    let id = counter.next;
    counter.next = counter.next.wrapping_add(1);
    id
}

/// Sets the counter after a restart from the largest identifier found
/// among the messages this node already sent (`None` when it could not be
/// read, which counts as 0): the counter goes on after it, or starts at 1.
/// Returns the new value of the counter.
pub fn init_msg_id(counter: &mut MsgIdCounter, max_id: Option<u64>) -> (v: u64)
    ensures
        v == restart_value(
            match max_id {
                Some(m) => m,
                None => 0,
            },
        ),
        final(counter)@ == v,
{
    let max_id = match max_id {
        Some(m) => m,
        None => 0,
    };
    let init_val = if max_id == 0 {
        1
    } else {
        max_id.wrapping_add(1)
    };
    counter.next = init_val;
    init_val
}

/// After a restart from the largest identifier in use, every identifier
/// handed out before the counter wraps is larger than it: the first is
/// `max_id + 1`, and each next one is one more.
pub proof fn lemma_restart_ids_are_fresh(max_id: u64)
    requires
        max_id < u64::MAX,
    ensures
        restart_value(max_id) > max_id,
        forall|id: u64| id > max_id && id < u64::MAX ==> #[trigger] next_id(id) > id,
{
}

/// The identifier that the `k`-th call of `new_msg_id` (counting from
/// 0) hands out, from a counter at `start`.
pub open spec fn nth_id(start: u64, k: nat) -> u64
    decreases k,
{
    if k == 0 {
        start
    } else {
        next_id(nth_id(start, (k - 1) as nat))
    }
}

proof fn lemma_nth_id_value(start: u64, k: nat)
    ensures
        nth_id(start, k) as int == (start + k) % 0x1_0000_0000_0000_0000,
    decreases k,
{
    if k > 0 {
        lemma_nth_id_value(start, (k - 1) as nat);
    }
}

/// No identifier is handed out twice before the counter has gone round:
/// of fewer than 2^64 successive calls of `new_msg_id`, any two give
/// different identifiers.
pub proof fn lemma_ids_distinct(start: u64, i: nat, j: nat)
    requires
        i < j < 0x1_0000_0000_0000_0000,
    ensures
        nth_id(start, i) != nth_id(start, j),
{
    lemma_nth_id_value(start, i);
    lemma_nth_id_value(start, j);
}

/// The current time (`std::time::SystemTime::now`). Nothing is stated
/// of it.
#[verifier::external_body]
fn system_time_now() -> (t: std::time::SystemTime) {
    std::time::SystemTime::now()
}

/// The time from the Unix epoch to `t`
/// (`SystemTime::duration_since(UNIX_EPOCH)`), or nothing when `t` lies
/// before the epoch. Nothing is stated of the duration.
#[verifier::external_body]
fn since_epoch(t: &std::time::SystemTime) -> (d: Option<std::time::Duration>) {
    t.duration_since(std::time::UNIX_EPOCH).ok()
}

/// The whole seconds of a duration (`Duration::as_secs`). Nothing is
/// stated of the number.
#[verifier::external_body]
fn whole_secs(d: &std::time::Duration) -> (secs: u64) {
    d.as_secs()
}

/// The current Unix time in seconds, or nothing when the system clock
/// reads a time before the Unix epoch.
pub fn now_secs() -> (secs: Option<u64>) {
    let t = system_time_now();
    match since_epoch(&t) {
        Some(d) => Some(whole_secs(&d)),
        None => None,
    }
}

} // verus!

use vstd::prelude::*;

verus! {

/// Largest lead, in milliseconds, that the clock may take over the observed
/// physical time.
pub const MAX_DRIFT_MS: i64 = 60000;

/// Largest value that the logical counter may reach.
pub const MAX_COUNTER: i64 = 65535;

/// The ways in which an operation on a timestamp can fail.
#[derive(Clone, Copy, Debug, PartialEq, Eq, Structural)]
pub enum HlcError {
    /// The clock would run more than `MAX_DRIFT_MS` ahead of the observed time.
    ClockDrift,
    /// The logical counter would exceed `MAX_COUNTER`.
    CounterOverflow,
    /// A timestamp of this very node was handed to `recv_at`.
    DuplicateNode,
    /// A string is not the canonical text of a timestamp.
    ParseError,
}

/// One tick of a hybrid logical clock. Timestamps order lexicographically by
/// (millis, counter, node).
#[derive(Clone, Copy, Debug, PartialEq, Eq, PartialOrd, Ord, Structural)]
pub struct Timestamp {
    /// Physical component: milliseconds since the Unix epoch.
    pub millis: i64,
    /// Logical counter that orders events within one millisecond.
    pub counter: i64,
    /// Identifier of the node that owns the clock.
    pub node: i64,
}

pub open spec fn max_int(a: int, b: int) -> int {
    if a >= b { a } else { b }
}

/// The (millis, counter) pair that a local event at observed time `phys`
/// moves `t` to, or the error that it raises.
pub open spec fn send_step(t: Timestamp, phys: int) -> Result<(int, int), HlcError> {
    let l_new = max_int(t.millis as int, phys);
    let c_new = if l_new == t.millis { t.counter + 1 } else { 0 };
    if l_new - phys > MAX_DRIFT_MS {
        Err(HlcError::ClockDrift)
    } else if c_new > MAX_COUNTER {
        Err(HlcError::CounterOverflow)
    } else {
        Ok((l_new, c_new))
    }
}

/// The counter that a merge computes before its checks: one more than the
/// larger counter of the timestamps (local, remote) whose physical component
/// equals the new one, or zero where only the observed time reaches it.
pub open spec fn recv_counter(t: Timestamp, msg: Timestamp, phys: int) -> int {
    let l_new = max_int(max_int(t.millis as int, phys), msg.millis as int);
    if l_new == t.millis && l_new == msg.millis {
        max_int(t.counter as int, msg.counter as int) + 1
    } else if l_new == t.millis {
        t.counter + 1
    } else if l_new == msg.millis {
        msg.counter + 1
    } else {
        0
    }
}

/// The (millis, counter) pair that merging `msg` at observed time `phys`
/// moves `t` to, or the error that it raises.
pub open spec fn recv_step(t: Timestamp, msg: Timestamp, phys: int) -> Result<(int, int), HlcError> {
    if msg.node == t.node {
        Err(HlcError::DuplicateNode)
    } else if msg.millis - phys > MAX_DRIFT_MS {
        Err(HlcError::ClockDrift)
    } else {
        let l_new = max_int(max_int(t.millis as int, phys), msg.millis as int);
        let c_new = recv_counter(t, msg, phys);
        if l_new - phys > MAX_DRIFT_MS {
            Err(HlcError::ClockDrift)
        } else if c_new > MAX_COUNTER {
            Err(HlcError::CounterOverflow)
        } else {
            Ok((l_new, c_new))
        }
    }
}

/// How a step with outcome `step` takes `before` to `after` with result `r`:
/// on success the pair is committed and the node kept, on failure nothing
/// changes and the error is returned.
pub open spec fn step_effect(
    step: Result<(int, int), HlcError>,
    before: Timestamp,
    after: Timestamp,
    r: Result<(), HlcError>,
) -> bool {
    match step {
        Ok((l, c)) => r is Ok && after.millis == l && after.counter == c && after.node == before.node,
        Err(e) => r == Err::<(), HlcError>(e) && after == before,
    }
}

impl Timestamp {
    /// Builds a timestamp from its three parts, without any check.
    pub fn new(millis: i64, counter: i64, node: i64) -> (r: Self)
        ensures
            r.millis == millis,
            r.counter == counter,
            r.node == node,
    {
        Timestamp { millis, counter, node }
    }

    /// Advances the clock for a local event, with `phys` as the observed
    /// physical time. On failure the timestamp is left as it was.
    pub fn send_at(&mut self, phys: i64) -> (r: Result<(), HlcError>)
        ensures
            step_effect(send_step(*old(self), phys as int), *old(self), *final(self), r),
    {
        let l_old = self.millis;
        let c_old = self.counter;
        let l_new: i64 = if l_old >= phys { l_old } else { phys };
        let c_new: i128 = if l_old == l_new { c_old as i128 + 1 } else { 0 };
        if l_new as i128 - phys as i128 > MAX_DRIFT_MS as i128 {
            return Err(HlcError::ClockDrift);
        }
        if c_new > MAX_COUNTER as i128 {
            return Err(HlcError::CounterOverflow);
        }
        self.millis = l_new;
        self.counter = c_new as i64;
        Ok(())
    }

    /// Merges a timestamp `msg` received from another node, with `phys` as
    /// the observed physical time. On failure the timestamp is left as it was.
    pub fn recv_at(&mut self, msg: Timestamp, phys: i64) -> (r: Result<(), HlcError>)
        ensures
            step_effect(recv_step(*old(self), msg, phys as int), *old(self), *final(self), r),
    {
        if msg.node == self.node {
            return Err(HlcError::DuplicateNode);
        }
        let l_msg = msg.millis;
        let c_msg = msg.counter;
        if l_msg as i128 - phys as i128 > MAX_DRIFT_MS as i128 {
            return Err(HlcError::ClockDrift);
        }
        let l_old = self.millis;
        let c_old = self.counter;
        let l_mid: i64 = if l_old >= phys { l_old } else { phys };
        let l_new: i64 = if l_mid >= l_msg { l_mid } else { l_msg };
        let c_new: i128 = if l_new == l_old && l_new == l_msg {
            let c_max: i64 = if c_old >= c_msg { c_old } else { c_msg };
            c_max as i128 + 1
        } else if l_new == l_old {
            c_old as i128 + 1
        } else if l_new == l_msg {
            c_msg as i128 + 1
        } else {
            0
        };
        if l_new as i128 - phys as i128 > MAX_DRIFT_MS as i128 {
            return Err(HlcError::ClockDrift);
        }
        if c_new > MAX_COUNTER as i128 {
            return Err(HlcError::CounterOverflow);
        }
        self.millis = l_new;
        self.counter = c_new as i64;
        Ok(())
    }

    /// The physical component.
    pub fn millis(&self) -> (r: i64)
        ensures
            r == self.millis,
    {
        self.millis
    }

    /// The logical counter.
    pub fn counter(&self) -> (r: i64)
        ensures
            r == self.counter,
    {
        self.counter
    }

    /// The node identifier.
    pub fn node(&self) -> (r: i64)
        ensures
            r == self.node,
    {
        self.node
    }

    /// Replaces the physical component.
    pub fn set_millis(&mut self, millis: i64)
        ensures
            *final(self) == (Timestamp { millis, ..*old(self) }),
    {
        self.millis = millis;
    }

    /// Replaces the logical counter.
    pub fn set_counter(&mut self, counter: i64)
        ensures
            *final(self) == (Timestamp { counter, ..*old(self) }),
    {
        self.counter = counter;
    }

    /// Replaces the node identifier.
    pub fn set_node(&mut self, node: i64)
        ensures
            *final(self) == (Timestamp { node, ..*old(self) }),
    {
        self.node = node;
    }
}

/// Lexicographic order on (millis, counter) pairs.
pub open spec fn pair_lt(a: (int, int), b: (int, int)) -> bool {
    a.0 < b.0 || (a.0 == b.0 && a.1 < b.1)
}

/// Every successful local event moves the clock strictly forward in
/// (millis, counter) order, so a run of successful `send_at` calls yields strictly
/// increasing pairs.
pub proof fn send_moves_forward(t: Timestamp, phys: int)
    ensures
        send_step(t, phys) matches Ok(p) ==> pair_lt((t.millis as int, t.counter as int), p),
{
}

/// The timestamp after one local event at observed time `phys`: the new pair
/// where the event succeeds, `t` unchanged where it fails.
pub open spec fn after_send(t: Timestamp, phys: int) -> Timestamp {
    match send_step(t, phys) {
        Ok((l, c)) => Timestamp { millis: l as i64, counter: c as i64, node: t.node },
        Err(_) => t,
    }
}

/// The timestamps after each of a run of local events, starting from `t`,
/// with `clock[k]` the time observed by the `k`-th event.
pub open spec fn send_run(t: Timestamp, clock: Seq<i64>) -> Seq<Timestamp>
    decreases clock.len(),
{
    if clock.len() == 0 {
        seq![]
    } else {
        let before = send_run(t, clock.drop_last());
        let cur = if before.len() == 0 { t } else { before.last() };
        before.push(after_send(cur, clock.last() as int))
    }
}

/// The timestamp in force before the `k`-th event of a run.
pub open spec fn run_state_before(t: Timestamp, clock: Seq<i64>, k: int) -> Timestamp {
    if k == 0 { t } else { send_run(t, clock)[k - 1] }
}

proof fn lemma_send_run_prefix(t: Timestamp, clock: Seq<i64>, n: int)
    requires
        0 <= n <= clock.len(),
    ensures
        send_run(t, clock).len() == clock.len(),
        send_run(t, clock.subrange(0, n)) == send_run(t, clock).subrange(0, n),
    decreases clock.len(),
{
    if clock.len() > 0 {
        lemma_send_run_prefix(t, clock.drop_last(), 0);
        if n == clock.len() {
            assert(clock.subrange(0, n) =~= clock);
            assert(send_run(t, clock).subrange(0, n) =~= send_run(t, clock));
        } else {
            lemma_send_run_prefix(t, clock.drop_last(), n);
            assert(clock.drop_last().subrange(0, n) =~= clock.subrange(0, n));
            assert(send_run(t, clock.drop_last()).subrange(0, n) =~= send_run(t, clock).subrange(0, n));
        }
    } else {
        assert(clock.subrange(0, n) =~= clock);
        assert(send_run(t, clock).subrange(0, n) =~= send_run(t, clock));
    }
}

/// In a run of local events that all succeed, each timestamp is strictly
/// greater in (millis, counter) order than the one before it, the first
/// included.
pub proof fn send_run_increases(t: Timestamp, clock: Seq<i64>)
    requires
        forall|k: int| 0 <= k < clock.len() ==> send_step(#[trigger] run_state_before(t, clock, k), clock[k] as int) is Ok,
    ensures
        forall|k: int|
            0 <= k < clock.len() ==> pair_lt(
                (run_state_before(t, clock, k).millis as int, run_state_before(t, clock, k).counter as int),
                (#[trigger] send_run(t, clock)[k].millis as int, send_run(t, clock)[k].counter as int),
            ),
{
    assert forall|k: int| 0 <= k < clock.len() implies pair_lt(
        (run_state_before(t, clock, k).millis as int, run_state_before(t, clock, k).counter as int),
        (#[trigger] send_run(t, clock)[k].millis as int, send_run(t, clock)[k].counter as int),
    ) by {
        let prefix = clock.subrange(0, k + 1);
        lemma_send_run_prefix(t, clock, k + 1);
        lemma_send_run_prefix(t, clock, k);
        lemma_send_run_prefix(t, prefix, k);
        assert(prefix.drop_last() =~= clock.subrange(0, k));
        let before = send_run(t, prefix.drop_last());
        assert(send_run(t, prefix)[k] == send_run(t, clock)[k]);
        let s = run_state_before(t, clock, k);
        if k > 0 {
            assert(before.last() == send_run(t, clock)[k - 1]);
        }
        assert(send_run(t, prefix)[k] == after_send(s, clock[k] as int));
        send_moves_forward(s, clock[k] as int);
    }
}

/// Two consecutive local events at the same observed time keep the physical
/// component and raise the counter by exactly one.
pub proof fn send_twice_same_time(t: Timestamp, phys: i64)
    requires
        send_step(t, phys as int) is Ok,
    ensures
        ({
            let (l1, c1) = send_step(t, phys as int)->Ok_0;
            let t1 = Timestamp { millis: l1 as i64, counter: c1 as i64, node: t.node };
            send_step(t1, phys as int) matches Ok((l2, c2)) ==> l2 == l1 && c2 == c1 + 1
        }),
{
}

/// A successful merge never sets the clock behind the local time, the
/// remote time or the observed physical time.
pub proof fn recv_is_causal(t: Timestamp, msg: Timestamp, phys: int)
    requires
        msg.node != t.node,
    ensures
        recv_step(t, msg, phys) matches Ok((l, c)) ==> l >= t.millis && l >= msg.millis && l >= phys,
{
}

/// A local event whose new physical component would lead the observed time
/// by more than `MAX_DRIFT_MS` fails with `ClockDrift`.
pub proof fn send_rejects_drift(t: Timestamp, phys: int)
    requires
        max_int(t.millis as int, phys) - phys > MAX_DRIFT_MS,
    ensures
        send_step(t, phys) == Err::<(int, int), HlcError>(HlcError::ClockDrift),
{
}

/// A merge from another node fails with `ClockDrift` where the remote time,
/// or the merged physical component, leads the observed time by more than
/// `MAX_DRIFT_MS`.
pub proof fn recv_rejects_drift(t: Timestamp, msg: Timestamp, phys: int)
    requires
        msg.node != t.node,
        msg.millis - phys > MAX_DRIFT_MS || max_int(max_int(t.millis as int, phys), msg.millis as int) - phys
            > MAX_DRIFT_MS,
    ensures
        recv_step(t, msg, phys) == Err::<(int, int), HlcError>(HlcError::ClockDrift),
{
}

/// A local event without drift whose counter would pass `MAX_COUNTER` fails
/// with `CounterOverflow`.
pub proof fn send_rejects_overflow(t: Timestamp, phys: int)
    requires
        max_int(t.millis as int, phys) - phys <= MAX_DRIFT_MS,
        (if t.millis >= phys { t.counter + 1 } else { 0 }) > MAX_COUNTER,
    ensures
        send_step(t, phys) == Err::<(int, int), HlcError>(HlcError::CounterOverflow),
{
}

/// A merge from another node without drift whose counter would pass
/// `MAX_COUNTER` fails with `CounterOverflow`.
pub proof fn recv_rejects_overflow(t: Timestamp, msg: Timestamp, phys: int)
    requires
        msg.node != t.node,
        max_int(max_int(t.millis as int, phys), msg.millis as int) - phys <= MAX_DRIFT_MS,
        recv_counter(t, msg, phys) > MAX_COUNTER,
    ensures
        recv_step(t, msg, phys) == Err::<(int, int), HlcError>(HlcError::CounterOverflow),
{
}

/// A merge of a timestamp of the local node fails with `DuplicateNode`.
pub proof fn recv_rejects_own_node(t: Timestamp, msg: Timestamp, phys: int)
    requires
        msg.node == t.node,
    ensures
        recv_step(t, msg, phys) == Err::<(int, int), HlcError>(HlcError::DuplicateNode),
{
}

} // verus!

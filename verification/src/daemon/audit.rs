//! The audit stream: how a sample from the kernel becomes a line of the log, and
//! how a flood of equal events is held back.

use crate::text::{decimal, hexadecimal, to_decimal, to_hexadecimal};
use std::collections::HashMap;
use std::time::{Duration, Instant};
use vstd::prelude::*;

verus! {

/// A point in time of std's monotonic clock.
#[verifier::external_type_specification]
#[verifier::external_body]
pub struct ExInstant(std::time::Instant);

/// `Instant::now` of std reads the clock. Nothing is claimed of what it shows.
pub assume_specification[ Instant::now ]() -> Instant;

/// `Instant::elapsed` of std is the time that has passed since then. Nothing is
/// claimed of how long that is.
pub assume_specification[ Instant::elapsed ](instant: &Instant) -> Duration;

/// `Duration::as_nanos` of std is the length of a duration in nanoseconds.
/// Nothing is claimed of a duration that the clock gave.
pub assume_specification[ Duration::as_nanos ](duration: &Duration) -> u128;

/// `u16::from_le` of std keeps a number on a machine that stores the lowest byte
/// first, and swaps its bytes on one that stores the highest first. Which of the
/// two the machine is, is not claimed.
pub assume_specification[ u16::from_le ](x: u16) -> (n: u16)
    ensures
        n == x || n == (x % 256) * 256 + x / 256,
;

/// In which order the bytes of a number stand.
#[derive(Clone, Copy, Debug, PartialEq, Eq, Structural)]
pub enum ByteOrder {
    /// The lowest byte first.
    Little,
    /// The highest byte first.
    Big,
}

/// The order is that of the machine, as `u16::from_le` shows it.
pub open spec fn machine_reads(order: ByteOrder) -> bool {
    call_ensures(
        u16::from_le,
        (1u16,),
        match order {
            ByteOrder::Little => 1u16,
            ByteOrder::Big => 256u16,
        },
    )
}

/// The order of the machine.
pub fn machine_order() -> (order: ByteOrder)
    ensures
        machine_reads(order),
{
    let n: u16 = u16::from_le(1);
    if n == 1 {
        ByteOrder::Little
    } else {
        ByteOrder::Big
    }
}

/// `now` is what the clock shows: the nanoseconds, by `Duration::as_nanos`, of a
/// time that `Instant::elapsed` has given as passed since `start`.
pub open spec fn clock_shows(start: Instant, now: u128) -> bool {
    exists|passed: Duration| #[trigger]
        call_ensures(Instant::elapsed, (&start,), passed) && call_ensures(
            Duration::as_nanos,
            (&passed,),
            now,
        )
}

/// The length of a window, in nanoseconds: a minute.
pub const RATE_LIMIT_WINDOW: u128 = 60_000_000_000;

/// How many equal events one window lets through.
pub const RATE_LIMIT_MAX: u32 = 10;

/// Expired windows are forgotten after this many events that were let through.
pub const GC_INTERVAL: u32 = 1000;

/// The bytes of an event.
pub const EVENT_SIZE: usize = 40;

/// An event as the kernel reports it.
#[derive(Clone, Copy, Debug)]
pub struct AuditEvent {
    pub timestamp: u64,
    pub pid: u32,
    pub role_id: u32,
    pub decision: u32,
    pub hook_type: u32,
    pub context: u64,
    pub pod_id: u64,
}

/// The name of a hook.
pub open spec fn hook(hook_type: u32) -> Seq<char> {
    if hook_type == 1 {
        "file_open"@
    } else if hook_type == 2 {
        "socket_bind"@
    } else if hook_type == 3 {
        "socket_connect"@
    } else if hook_type == 4 {
        "bprm_check"@
    } else if hook_type == 5 {
        "path_rename"@
    } else {
        "unknown"@
    }
}

/// The name of a hook.
pub fn hook_name(hook_type: u32) -> (name: &'static str)
    ensures
        name@ == hook(hook_type),
{
    match hook_type {
        1 => "file_open",
        2 => "socket_bind",
        3 => "socket_connect",
        4 => "bprm_check",
        5 => "path_rename",
        _ => "unknown",
    }
}

/// The name of a decision.
pub open spec fn verdict_name(decision: u32) -> Seq<char> {
    if decision == 0 {
        "deny"@
    } else if decision == 1 {
        "allow"@
    } else {
        "unknown"@
    }
}

/// The name of a decision.
pub fn decision_name(decision: u32) -> (name: &'static str)
    ensures
        name@ == verdict_name(decision),
{
    match decision {
        0 => "deny",
        1 => "allow",
        _ => "unknown",
    }
}

/// The number that bytes denote, the lowest byte first.
pub open spec fn little_endian(bytes: Seq<u8>) -> nat
    decreases bytes.len(),
{
    if bytes.len() == 0 {
        0
    } else {
        bytes[0] as nat + 256 * little_endian(bytes.drop_first())
    }
}

/// The bytes of a number, the lowest first.
pub open spec fn lowest_first(bytes: Seq<u8>, order: ByteOrder) -> Seq<u8> {
    match order {
        ByteOrder::Little => bytes,
        ByteOrder::Big => bytes.reverse(),
    }
}

/// The number that bytes denote in some order.
pub open spec fn number_in(order: ByteOrder, bytes: Seq<u8>) -> nat {
    little_endian(lowest_first(bytes, order))
}

/// The event that a sample begins with, if it is long enough: its fields in order,
/// the bytes of each in the given order.
pub open spec fn event_of(data: Seq<u8>, order: ByteOrder) -> Option<AuditEvent> {
    if data.len() < EVENT_SIZE {
        None
    } else {
        Some(
            AuditEvent {
                timestamp: number_in(order, data.subrange(0, 8)) as u64,
                pid: number_in(order, data.subrange(8, 12)) as u32,
                role_id: number_in(order, data.subrange(12, 16)) as u32,
                decision: number_in(order, data.subrange(16, 20)) as u32,
                hook_type: number_in(order, data.subrange(20, 24)) as u32,
                context: number_in(order, data.subrange(24, 32)) as u64,
                pod_id: number_in(order, data.subrange(32, 40)) as u64,
            },
        )
    }
}

/// The number of four bytes, the lowest first.
fn number_of(b0: u8, b1: u8, b2: u8, b3: u8) -> (n: u32)
    ensures
        n == little_endian(seq![b0, b1, b2, b3]),
{
    proof {
        let s = seq![b0, b1, b2, b3];
        let s1 = s.drop_first();
        let s2 = s1.drop_first();
        let s3 = s2.drop_first();
        let s4 = s3.drop_first();
        assert(little_endian(s4) == 0);
        assert(little_endian(s3) == s3[0] as nat + 256 * little_endian(s4));
        assert(little_endian(s2) == s2[0] as nat + 256 * little_endian(s3));
        assert(little_endian(s1) == s1[0] as nat + 256 * little_endian(s2));
        assert(s1[0] == b1 && s2[0] == b2 && s3[0] == b3);
    }
    let low: u32 = b0 as u32 + 256 * (b1 as u32);
    let high: u32 = b2 as u32 + 256 * (b3 as u32);
    low + 65536 * high
}

/// The four bytes at `from` as a number.
fn read_u32(data: &[u8], from: usize, order: ByteOrder) -> (n: u32)
    requires
        from + 4 <= data@.len(),
    ensures
        n == number_in(order, data@.subrange(from as int, from + 4)),
{
    let len: usize = data.len();
    let b0: u8 = data[from];
    let b1: u8 = data[from + 1];
    let b2: u8 = data[from + 2];
    let b3: u8 = data[from + 3];
    let ghost bytes = data@.subrange(from as int, from + 4);
    match order {
        ByteOrder::Little => {
            assert(lowest_first(bytes, order) =~= seq![b0, b1, b2, b3]);
            number_of(b0, b1, b2, b3)
        },
        ByteOrder::Big => {
            assert(lowest_first(bytes, order) =~= seq![b3, b2, b1, b0]);
            number_of(b3, b2, b1, b0)
        },
    }
}

/// The eight bytes at `from` as a number.
fn read_u64(data: &[u8], from: usize, order: ByteOrder) -> (n: u64)
    requires
        from + 8 <= data@.len(),
    ensures
        n == number_in(order, data@.subrange(from as int, from + 8)),
{
    let len: usize = data.len();
    let first: u32 = read_u32(data, from, order);
    let second: u32 = read_u32(data, from + 4, order);
    let ghost b = lowest_first(data@.subrange(from as int, from + 8), order);
    let ghost b1 = lowest_first(data@.subrange(from as int, from + 4), order);
    let ghost b2 = lowest_first(data@.subrange(from + 4, from + 8), order);
    proof {
        lemma_little_endian_split(b);
    }
    match order {
        ByteOrder::Little => {
            assert(b.take(4) =~= b1 && b.skip(4) =~= b2);
            first as u64 + 4294967296 * (second as u64)
        },
        ByteOrder::Big => {
            assert(b.take(4) =~= b2 && b.skip(4) =~= b1);
            second as u64 + 4294967296 * (first as u64)
        },
    }
}

/// The first four bytes and the others denote the parts of a number.
proof fn lemma_little_endian_split(b: Seq<u8>)
    requires
        4 <= b.len(),
    ensures
        little_endian(b) == little_endian(b.take(4)) + 4294967296 * little_endian(b.skip(4)),
{
    let b1 = b.drop_first();
    let b2 = b1.drop_first();
    let b3 = b2.drop_first();
    let b4 = b3.drop_first();
    assert(b4 =~= b.skip(4));
    assert(little_endian(b3) == b3[0] as nat + 256 * little_endian(b4));
    assert(little_endian(b2) == b2[0] as nat + 256 * little_endian(b3));
    assert(little_endian(b1) == b1[0] as nat + 256 * little_endian(b2));
    let c = b.take(4);
    let c1 = c.drop_first();
    let c2 = c1.drop_first();
    let c3 = c2.drop_first();
    let c4 = c3.drop_first();
    assert(little_endian(c4) == 0);
    assert(little_endian(c3) == c3[0] as nat + 256 * little_endian(c4));
    assert(little_endian(c2) == c2[0] as nat + 256 * little_endian(c3));
    assert(little_endian(c1) == c1[0] as nat + 256 * little_endian(c2));
    assert(c[0] == b[0] && c1[0] == b1[0] && c2[0] == b2[0] && c3[0] == b3[0]);
}

/// The event that a sample begins with, if it is long enough, the bytes of its
/// fields in the given order.
pub fn read_event(data: &[u8], order: ByteOrder) -> (r: Option<AuditEvent>)
    ensures
        r == event_of(data@, order),
{
    if data.len() < EVENT_SIZE {
        return None;
    }
    Some(
        AuditEvent {
            timestamp: read_u64(data, 0, order),
            pid: read_u32(data, 8, order),
            role_id: read_u32(data, 12, order),
            decision: read_u32(data, 16, order),
            hook_type: read_u32(data, 20, order),
            context: read_u64(data, 24, order),
            pod_id: read_u64(data, 32, order),
        },
    )
}

/// An event as a line of the log.
pub open spec fn audit_line(e: AuditEvent) -> Seq<char> {
    "pid="@ + decimal(e.pid as nat) + " role_id="@ + decimal(e.role_id as nat) + " pod_id="@
        + decimal(e.pod_id as nat) + " decision="@ + verdict_name(e.decision) + " hook="@ + hook(
        e.hook_type,
    ) + " context=0x"@ + hexadecimal(e.context as nat)
}

/// An event as a line of the log, in pairs of a key and a value.
pub fn format_event(e: &AuditEvent) -> (s: String)
    ensures
        s@ == audit_line(*e),
{
    let mut s = "pid=".to_owned();
    s.append(to_decimal(e.pid as u64).as_str());
    s.append(" role_id=");
    s.append(to_decimal(e.role_id as u64).as_str());
    s.append(" pod_id=");
    s.append(to_decimal(e.pod_id).as_str());
    s.append(" decision=");
    s.append(decision_name(e.decision));
    s.append(" hook=");
    s.append(hook_name(e.hook_type));
    s.append(" context=0x");
    s.append(to_hexadecimal(e.context).as_str());
    s
}

/// A line of the log with the user and the role that it is about, as far as they
/// are known.
pub open spec fn attributed(line: Seq<char>, uid: Option<u32>, role: Option<Seq<char>>) -> Seq<
    char,
> {
    let with_user = match uid {
        Some(uid) => line + " uid="@ + decimal(uid as nat),
        None => line,
    };
    match role {
        Some(role) => with_user + " role="@ + role,
        None => with_user,
    }
}

/// A line of the log with the user and the role that it is about, as far as they
/// are known.
pub fn attribute(line: &str, uid: Option<u32>, role: Option<&str>) -> (s: String)
    ensures
        s@ == attributed(
            line@,
            uid,
            match role {
                Some(r) => Some(r@),
                None => None,
            },
        ),
{
    let mut s = line.to_owned();
    if let Some(uid) = uid {
        s.append(" uid=");
        s.append(to_decimal(uid as u64).as_str());
    }
    if let Some(role) = role {
        s.append(" role=");
        s.append(role);
    }
    s
}

/// What makes two events equal to the limiter: role, hook and context.
pub type EventKey = (u32, u32, u64);

/// How many events a window has seen, and when it began. The count stops at the
/// largest number that it can hold.
pub struct Bucket {
    pub count: u32,
    pub since: u128,
}

/// The window is over at `now`. A clock that went back ends no window.
pub open spec fn expired(b: Bucket, now: u128) -> bool {
    now - b.since >= RATE_LIMIT_WINDOW
}

/// The window of an event after one more at `now`: a new one where there was none
/// or it is over.
pub open spec fn counted(m: Map<EventKey, Bucket>, key: EventKey, now: u128) -> Bucket {
    if !m.contains_key(key) || expired(m[key], now) {
        Bucket { count: 1, since: now }
    } else {
        Bucket {
            count: if m[key].count < u32::MAX {
                (m[key].count + 1) as u32
            } else {
                u32::MAX
            },
            since: m[key].since,
        }
    }
}

/// An event at `now` is let through.
pub open spec fn let_through(m: Map<EventKey, Bucket>, key: EventKey, now: u128) -> bool {
    counted(m, key, now).count <= RATE_LIMIT_MAX
}

/// The windows that are not over at `now`.
pub open spec fn unexpired(m: Map<EventKey, Bucket>, now: u128) -> Map<EventKey, Bucket> {
    Map::new(|k: EventKey| m.contains_key(k) && !expired(m[k], now), |k: EventKey| m[k])
}

/// Role, hook and context as one number.
pub open spec fn packed(key: EventKey) -> u128 {
    (key.0 * 0x1_0000_0000_0000_0000_0000_0000 + key.1 * 0x1_0000_0000_0000_0000 + key.2) as u128
}

/// The windows by event.
pub open spec fn unpacked(m: Map<u128, (u32, u128)>) -> Map<EventKey, Bucket> {
    Map::new(
        |k: EventKey| m.contains_key(packed(k)),
        |k: EventKey| Bucket { count: m[packed(k)].0, since: m[packed(k)].1 },
    )
}

/// Different events have different numbers.
proof fn lemma_packed(a: EventKey, b: EventKey)
    ensures
        packed(a) == packed(b) ==> a == b,
{
}

/// Role, hook and context as one number.
fn pack(role_id: u32, hook_type: u32, context: u64) -> (n: u128)
    ensures
        n == packed((role_id, hook_type, context)),
{
    role_id as u128 * 0x1_0000_0000_0000_0000_0000_0000 + hook_type as u128
        * 0x1_0000_0000_0000_0000 + context as u128
}

/// Holds back events that come too often. Times count from when the limiter was
/// made.
pub struct RateLimiter {
    buckets: HashMap<u128, (u32, u128)>,
    start: Instant,
}

impl View for RateLimiter {
    type V = Map<EventKey, Bucket>;

    closed spec fn view(&self) -> Map<EventKey, Bucket> {
        unpacked(self.buckets@)
    }
}

impl RateLimiter {
    /// When the limiter was made.
    pub closed spec fn started(&self) -> Instant {
        self.start
    }

    /// A limiter that has seen nothing.
    pub fn new() -> (limiter: RateLimiter)
        ensures
            limiter@ == Map::<EventKey, Bucket>::empty(),
    {
        let limiter = RateLimiter { buckets: HashMap::new(), start: Instant::now() };
        assert(limiter@ =~= Map::<EventKey, Bucket>::empty());
        limiter
    }

    /// The time since the limiter was made, in nanoseconds.
    fn now(&self) -> (now: u128)
        ensures
            clock_shows(self.started(), now),
    {
        self.start.elapsed().as_nanos()
    }

    /// Whether an event is let through now.
    pub fn allow(&mut self, role_id: u32, hook_type: u32, context: u64) -> (r: bool)
        ensures
            final(self).started() == old(self).started(),
            exists|now: u128|
                {
                    &&& clock_shows(old(self).started(), now)
                    &&& r == let_through(old(self)@, (role_id, hook_type, context), now)
                    &&& final(self)@ == old(self)@.insert(
                        (role_id, hook_type, context),
                        #[trigger] counted(old(self)@, (role_id, hook_type, context), now),
                    )
                },
    {
        let now: u128 = self.now();
        self.allow_at(role_id, hook_type, context, now)
    }

    /// Whether an event is let through at `now`.
    pub fn allow_at(&mut self, role_id: u32, hook_type: u32, context: u64, now: u128) -> (r: bool)
        ensures
            final(self).started() == old(self).started(),
            r == let_through(old(self)@, (role_id, hook_type, context), now),
            final(self)@ == old(self)@.insert(
                (role_id, hook_type, context),
                counted(old(self)@, (role_id, hook_type, context), now),
            ),
    {
        let ghost key: EventKey = (role_id, hook_type, context);
        let ghost before = self@;
        let n: u128 = pack(role_id, hook_type, context);
        let bucket: (u32, u128) = match self.buckets.get(&n) {
            None => (1, now),
            Some(b) => if now >= b.1 && now - b.1 >= RATE_LIMIT_WINDOW {
                (1, now)
            } else {
                (b.0.saturating_add(1), b.1)
            },
        };
        assert(before.contains_key(key) == self.buckets@.contains_key(n));
        assert(counted(before, key, now) == (Bucket { count: bucket.0, since: bucket.1 }));
        self.buckets.insert(n, bucket);
        proof {
            let after = before.insert(key, counted(before, key, now));
            assert forall|k: EventKey| #[trigger]
                self@.contains_key(k) == after.contains_key(k) && (self@.contains_key(k)
                    ==> self@[k] == after[k]) by {
                lemma_packed(k, key);
            }
            assert(self@ =~= after);
        }
        bucket.0 <= RATE_LIMIT_MAX
    }

    /// Forgets the windows that are over now.
    pub fn gc(&mut self)
        ensures
            final(self).started() == old(self).started(),
            exists|now: u128|
                {
                    &&& clock_shows(old(self).started(), now)
                    &&& final(self)@ == #[trigger] unexpired(old(self)@, now)
                },
    {
        let now: u128 = self.now();
        self.gc_at(now);
    }

    /// Forgets the windows that are over at `now`.
    pub fn gc_at(&mut self, now: u128)
        ensures
            final(self).started() == old(self).started(),
            final(self)@ == unexpired(old(self)@, now),
    {
        let ghost before = self.buckets@;
        let mut kept: HashMap<u128, (u32, u128)> = HashMap::new();
        let ghost mut seen: Set<u128> = Set::empty();
        for n in it: self.buckets.keys()
            invariant
                before == self.buckets@,
                it.seq().unref().to_set() == before.dom(),
                seen == it.seq().unref().take(it.index() as int).to_set(),
                it.index() == it.seq().len() ==> seen == before.dom(),
                forall|k: u128| #[trigger]
                    kept@.contains_key(k) <==> seen.contains(k) && before.contains_key(k)
                        && !(now - before[k].1 >= RATE_LIMIT_WINDOW),
                forall|k: u128| #[trigger] kept@.contains_key(k) ==> kept@[k] == before[k],
        {
            proof {
                let all = it.seq().unref();
                let i = it.index() as int;
                assert(all[i] == *n);
                assert(all.to_set().contains(*n));
                assert(all.take(i + 1) =~= all.take(i).push(*n));
                assert(all.take(i + 1).to_set() =~= seen.insert(*n)) by {
                    lemma_push_to_set(all.take(i), *n);
                }
                seen = seen.insert(*n);
                assert(i + 1 == all.len() ==> all.take(i + 1) =~= all);
            }
            if let Some(b) = self.buckets.get(n) {
                if now < b.1 || now - b.1 < RATE_LIMIT_WINDOW {
                    kept.insert(*n, *b);
                }
            }
        }
        self.buckets = kept;
        proof {
            assert(self@ =~= unexpired(unpacked(before), now));
        }
    }
}

/// The elements of a sequence with one more.
proof fn lemma_push_to_set(s: Seq<u128>, n: u128)
    ensures
        s.push(n).to_set() == s.to_set().insert(n),
{
    let pushed = s.push(n);
    assert forall|k: u128| pushed.to_set().contains(k) == s.to_set().insert(n).contains(k) by {
        if s.contains(k) {
            let i = choose|i: int| 0 <= i < s.len() && s[i] == k;
            assert(pushed[i] == k);
        }
        if k == n {
            assert(pushed[s.len() as int] == k);
        }
        if pushed.contains(k) && k != n {
            let i = choose|i: int| 0 <= i < pushed.len() && pushed[i] == k;
            assert(s[i] == k);
        }
    }
    assert(pushed.to_set() =~= s.to_set().insert(n));
}

/// What a reader of the audit stream remembers: the windows of the limiter, and
/// how many events were let through since windows were last forgotten. The bytes
/// of the samples stand in some order.
pub struct ReaderView {
    pub buckets: Map<EventKey, Bucket>,
    pub emitted: nat,
    pub order: ByteOrder,
}

/// Role, hook and context of an event.
pub open spec fn key_of(e: AuditEvent) -> EventKey {
    (e.role_id, e.hook_type, e.context)
}

/// The line that a sample gives at `now`: none where the sample is too short or
/// the limiter holds the event back.
pub open spec fn sample_line(r: ReaderView, data: Seq<u8>, now: u128) -> Option<Seq<char>> {
    match event_of(data, r.order) {
        Some(e) => if let_through(r.buckets, key_of(e), now) {
            Some(audit_line(e))
        } else {
            None
        },
        None => None,
    }
}

/// What is remembered after a sample at `now`. Where windows are forgotten, that
/// happens at `later`.
pub open spec fn after_sample(
    r: ReaderView,
    data: Seq<u8>,
    now: u128,
    later: u128,
) -> ReaderView {
    match event_of(data, r.order) {
        Some(e) => {
            let m = r.buckets.insert(key_of(e), counted(r.buckets, key_of(e), now));
            if !let_through(r.buckets, key_of(e), now) {
                ReaderView { buckets: m, ..r }
            } else if r.emitted + 1 == GC_INTERVAL {
                ReaderView { buckets: unexpired(m, later), emitted: 0, ..r }
            } else {
                ReaderView { buckets: m, emitted: r.emitted + 1, ..r }
            }
        },
        None => r,
    }
}

/// Turns the samples of the kernel into lines of the log.
pub struct AuditReader {
    limiter: RateLimiter,
    emitted: u32,
    order: ByteOrder,
}

impl View for AuditReader {
    type V = ReaderView;

    closed spec fn view(&self) -> ReaderView {
        ReaderView { buckets: self.limiter@, emitted: self.emitted as nat, order: self.order }
    }
}

impl AuditReader {
    /// When the reader was made.
    pub closed spec fn started(&self) -> Instant {
        self.limiter.started()
    }

    pub open spec fn wf(&self) -> bool {
        self@.emitted < GC_INTERVAL
    }

    /// A reader that has seen nothing, of samples in the order of the machine.
    pub fn new() -> (r: AuditReader)
        ensures
            r.wf(),
            machine_reads(r@.order),
            r@ == (ReaderView { buckets: Map::empty(), emitted: 0, order: r@.order }),
    {
        AuditReader::with_order(machine_order())
    }

    /// A reader that has seen nothing, of samples in the given order.
    pub fn with_order(order: ByteOrder) -> (r: AuditReader)
        ensures
            r.wf(),
            r@ == (ReaderView { buckets: Map::empty(), emitted: 0, order }),
    {
        AuditReader { limiter: RateLimiter::new(), emitted: 0, order }
    }

    /// The line to log for a sample, if any.
    pub fn on_sample(&mut self, data: &[u8]) -> (line: Option<String>)
        requires
            old(self).wf(),
        ensures
            final(self).wf(),
            final(self).started() == old(self).started(),
            exists|now: u128, later: u128|
                {
                    &&& clock_shows(old(self).started(), now)
                    &&& clock_shows(old(self).started(), later)
                    &&& crate::common::optional_text(line) == sample_line(old(self)@, data@, now)
                    &&& final(self)@ == #[trigger] after_sample(old(self)@, data@, now, later)
                },
    {
        let now: u128 = self.limiter.now();
        let later: u128 = self.limiter.now();
        self.on_sample_at(data, now, later)
    }

    /// The line to log for a sample at `now`, if any. Where windows are
    /// forgotten, that happens at `later`.
    pub fn on_sample_at(&mut self, data: &[u8], now: u128, later: u128) -> (line: Option<String>)
        requires
            old(self).wf(),
        ensures
            final(self).wf(),
            final(self).started() == old(self).started(),
            crate::common::optional_text(line) == sample_line(old(self)@, data@, now),
            final(self)@ == after_sample(old(self)@, data@, now, later),
    {
        let e = match read_event(data, self.order) {
            Some(e) => e,
            None => {
                return None;
            },
        };
        if !self.limiter.allow_at(e.role_id, e.hook_type, e.context, now) {
            return None;
        }
        self.emitted = self.emitted + 1;
        if self.emitted == GC_INTERVAL {
            self.limiter.gc_at(later);
            self.emitted = 0;
        }
        Some(format_event(&e))
    }
}

/// The windows after events at some times, in the order in which they come.
pub open spec fn after_events(
    m: Map<EventKey, Bucket>,
    events: Seq<(EventKey, u128)>,
) -> Map<EventKey, Bucket>
    decreases events.len(),
{
    if events.len() == 0 {
        m
    } else {
        let before = after_events(m, events.drop_last());
        before.insert(events.last().0, counted(before, events.last().0, events.last().1))
    }
}

/// Whether the limiter lets the event at `i` through, after all that came before.
pub open spec fn passes(m: Map<EventKey, Bucket>, events: Seq<(EventKey, u128)>, i: int) -> bool {
    let_through(after_events(m, events.take(i)), events[i].0, events[i].1)
}

/// How many of the events are equal to one.
pub open spec fn occurrences(events: Seq<(EventKey, u128)>, key: EventKey) -> nat
    decreases events.len(),
{
    if events.len() == 0 {
        0
    } else if events.last().0 == key {
        occurrences(events.drop_last(), key) + 1
    } else {
        occurrences(events.drop_last(), key)
    }
}

/// The window of an event begins at `first`, and every equal event behind it
/// falls into it.
pub open spec fn in_one_window(
    m: Map<EventKey, Bucket>,
    events: Seq<(EventKey, u128)>,
    first: int,
) -> bool {
    let key = events[first].0;
    &&& 0 <= first < events.len()
    &&& !m.contains_key(key) || expired(m[key], events[first].1)
    &&& forall|k: int| 0 <= k < first ==> (#[trigger] events[k]).0 != key
    &&& forall|k: int|
        first <= k < events.len() && (#[trigger] events[k]).0 == key ==> events[k].1
            - events[first].1 < RATE_LIMIT_WINDOW
}

/// Of equal events that come within one window from the first on, the limiter
/// lets the first ten through and holds back all others, whatever other events
/// come between them.
pub proof fn law_ten_events_per_window(
    m: Map<EventKey, Bucket>,
    events: Seq<(EventKey, u128)>,
    first: int,
    i: int,
)
    requires
        in_one_window(m, events, first),
        0 <= i < events.len(),
        events[i].0 == events[first].0,
    ensures
        passes(m, events, i) <==> occurrences(events.take(i), events[i].0) < RATE_LIMIT_MAX,
{
    lemma_bucket_counts(m, events, first, i);
}

/// How the window counts the events in it.
proof fn lemma_bucket_counts(
    m: Map<EventKey, Bucket>,
    events: Seq<(EventKey, u128)>,
    first: int,
    n: int,
)
    requires
        in_one_window(m, events, first),
        0 <= n <= events.len(),
    ensures
        ({
            let key = events[first].0;
            let after = after_events(m, events.take(n));
            let seen = occurrences(events.take(n), key);
            if n <= first {
                &&& seen == 0
                &&& after.contains_key(key) == m.contains_key(key)
                &&& after.contains_key(key) ==> after[key] == m[key]
            } else {
                &&& seen >= 1
                &&& after.contains_key(key)
                &&& after[key].since == events[first].1
                &&& after[key].count == if seen < u32::MAX {
                    seen as int
                } else {
                    u32::MAX as int
                }
            }
        }),
    decreases n,
{
    if n > 0 {
        assert(events.take(n).drop_last() =~= events.take(n - 1));
        assert(events.take(n).last() == events[n - 1]);
        lemma_bucket_counts(m, events, first, n - 1);
    }
}

/// A window that is over is followed by a new one, whatever it has held back.
pub proof fn law_window_ends(m: Map<EventKey, Bucket>, key: EventKey, now: u128)
    requires
        m.contains_key(key),
        expired(m[key], now),
    ensures
        let_through(m, key, now),
        counted(m, key, now) == (Bucket { count: 1, since: now }),
{
}

/// Events that differ in role, hook or context do not hold each other back.
pub proof fn law_events_are_independent(
    m: Map<EventKey, Bucket>,
    key: EventKey,
    other: EventKey,
    earlier: u128,
    now: u128,
)
    requires
        key != other,
    ensures
        let_through(m.insert(other, counted(m, other, earlier)), key, now) == let_through(
            m,
            key,
            now,
        ),
{
}

/// Two sets of windows count every event alike from a moment on.
spec fn agree(a: Map<EventKey, Bucket>, b: Map<EventKey, Bucket>, earlier: u128) -> bool {
    forall|key: EventKey, now: u128|
        earlier <= now ==> #[trigger] counted(a, key, now) == counted(b, key, now)
}

/// Forgetting the windows that are over changes no later decision, whatever
/// events come after it.
pub proof fn law_forgetting_changes_no_decision(
    m: Map<EventKey, Bucket>,
    earlier: u128,
    events: Seq<(EventKey, u128)>,
    i: int,
)
    requires
        forall|k: int| 0 <= k < events.len() ==> earlier <= (#[trigger] events[k]).1,
        0 <= i < events.len(),
    ensures
        passes(unexpired(m, earlier), events, i) == passes(m, events, i),
{
    assert forall|k: int| 0 <= k < events.take(i).len() implies earlier <= (
    #[trigger] events.take(i)[k]).1 by {
        assert(events.take(i)[k] == events[k]);
    }
    lemma_agree(unexpired(m, earlier), m, earlier, events.take(i));
    assert(counted(
        after_events(unexpired(m, earlier), events.take(i)),
        events[i].0,
        events[i].1,
    ) == counted(after_events(m, events.take(i)), events[i].0, events[i].1));
}

/// Windows that count alike still do after the same events.
proof fn lemma_agree(
    a: Map<EventKey, Bucket>,
    b: Map<EventKey, Bucket>,
    earlier: u128,
    events: Seq<(EventKey, u128)>,
)
    requires
        agree(a, b, earlier),
        forall|k: int| 0 <= k < events.len() ==> earlier <= (#[trigger] events[k]).1,
    ensures
        agree(after_events(a, events), after_events(b, events), earlier),
    decreases events.len(),
{
    if events.len() > 0 {
        assert forall|k: int| 0 <= k < events.drop_last().len() implies earlier <= (
        #[trigger] events.drop_last()[k]).1 by {
            assert(events.drop_last()[k] == events[k]);
        }
        lemma_agree(a, b, earlier, events.drop_last());
        let (key, at) = events[events.len() - 1];
        let before_a = after_events(a, events.drop_last());
        let before_b = after_events(b, events.drop_last());
        assert(counted(before_a, key, at) == counted(before_b, key, at));
        assert forall|other: EventKey, now: u128| earlier <= now implies #[trigger] counted(
            after_events(a, events),
            other,
            now,
        ) == counted(after_events(b, events), other, now) by {
            assert(counted(before_a, other, now) == counted(before_b, other, now));
        }
    }
}

/// The names of the hooks are those of the kernel's hooks, and a number that is none
/// of them is unknown.
pub proof fn law_hook_names(hook_type: u32, name: &'static str)
    requires
        call_ensures(hook_name, (hook_type,), name),
    ensures
        hook_type == 1 ==> name@ == "file_open"@,
        hook_type == 2 ==> name@ == "socket_bind"@,
        hook_type == 3 ==> name@ == "socket_connect"@,
        hook_type == 4 ==> name@ == "bprm_check"@,
        hook_type == 5 ==> name@ == "path_rename"@,
        hook_type == 0 || hook_type > 5 ==> name@ == "unknown"@,
{
}

/// A decision of 0 denies, one of 1 allows, and any other is unknown.
pub proof fn law_decision_names(decision: u32, name: &'static str)
    requires
        call_ensures(decision_name, (decision,), name),
    ensures
        decision == 0 ==> name@ == "deny"@,
        decision == 1 ==> name@ == "allow"@,
        decision > 1 ==> name@ == "unknown"@,
{
}

/// What four bytes denote.
proof fn lemma_four_bytes(b: Seq<u8>, order: ByteOrder)
    requires
        b.len() == 4,
    ensures
        number_in(order, b) == match order {
            ByteOrder::Little => b[0] + 0x100 * b[1] + 0x1_0000 * b[2] + 0x100_0000 * b[3],
            ByteOrder::Big => b[3] + 0x100 * b[2] + 0x1_0000 * b[1] + 0x100_0000 * b[0],
        },
{
    lemma_four_lowest_first(lowest_first(b, order));
}

proof fn lemma_four_lowest_first(c: Seq<u8>)
    requires
        c.len() == 4,
    ensures
        little_endian(c) == c[0] + 0x100 * c[1] + 0x1_0000 * c[2] + 0x100_0000 * c[3],
{
    let c1 = c.drop_first();
    let c2 = c1.drop_first();
    let c3 = c2.drop_first();
    let c4 = c3.drop_first();
    assert(little_endian(c4) == 0);
    assert(little_endian(c3) == c3[0] as nat + 256 * little_endian(c4));
    assert(little_endian(c2) == c2[0] as nat + 256 * little_endian(c3));
    assert(little_endian(c1) == c1[0] as nat + 256 * little_endian(c2));
    assert(c1[0] == c[1] && c2[0] == c[2] && c3[0] == c[3]);
}

/// What eight bytes denote.
proof fn lemma_eight_bytes(b: Seq<u8>, order: ByteOrder)
    requires
        b.len() == 8,
    ensures
        number_in(order, b) == match order {
            ByteOrder::Little => b[0] + 0x100 * b[1] + 0x1_0000 * b[2] + 0x100_0000 * b[3]
                + 0x1_0000_0000 * (b[4] + 0x100 * b[5] + 0x1_0000 * b[6] + 0x100_0000 * b[7]),
            ByteOrder::Big => b[7] + 0x100 * b[6] + 0x1_0000 * b[5] + 0x100_0000 * b[4]
                + 0x1_0000_0000 * (b[3] + 0x100 * b[2] + 0x1_0000 * b[1] + 0x100_0000 * b[0]),
        },
{
    let c = lowest_first(b, order);
    lemma_little_endian_split(c);
    lemma_four_lowest_first(c.take(4));
    lemma_four_lowest_first(c.skip(4));
}

/// A sample gives an event exactly where it has forty bytes or more. The fields stand
/// behind each other: the time in eight bytes; process, role, decision and hook in
/// four each; context and pod in eight each. In a sample of a machine that stores the
/// lowest byte first, each byte counts 256 times as much as the one before it.
pub proof fn law_fields_of_a_sample(data: &[u8], r: Option<AuditEvent>)
    requires
        call_ensures(read_event, (data, ByteOrder::Little), r),
    ensures
        r is Some <==> data@.len() >= 40,
        r matches Some(e) ==> {
            let d = data@;
            &&& e.timestamp == d[0] + 0x100 * d[1] + 0x1_0000 * d[2] + 0x100_0000 * d[3]
                + 0x1_0000_0000 * (d[4] + 0x100 * d[5] + 0x1_0000 * d[6] + 0x100_0000 * d[7])
            &&& e.pid == d[8] + 0x100 * d[9] + 0x1_0000 * d[10] + 0x100_0000 * d[11]
            &&& e.role_id == d[12] + 0x100 * d[13] + 0x1_0000 * d[14] + 0x100_0000 * d[15]
            &&& e.decision == d[16] + 0x100 * d[17] + 0x1_0000 * d[18] + 0x100_0000 * d[19]
            &&& e.hook_type == d[20] + 0x100 * d[21] + 0x1_0000 * d[22] + 0x100_0000 * d[23]
            &&& e.context == d[24] + 0x100 * d[25] + 0x1_0000 * d[26] + 0x100_0000 * d[27]
                + 0x1_0000_0000 * (d[28] + 0x100 * d[29] + 0x1_0000 * d[30] + 0x100_0000 * d[31])
            &&& e.pod_id == d[32] + 0x100 * d[33] + 0x1_0000 * d[34] + 0x100_0000 * d[35]
                + 0x1_0000_0000 * (d[36] + 0x100 * d[37] + 0x1_0000 * d[38] + 0x100_0000 * d[39])
        },
{
    let d = data@;
    if d.len() >= 40 {
        lemma_eight_bytes(d.subrange(0, 8), ByteOrder::Little);
        lemma_four_bytes(d.subrange(8, 12), ByteOrder::Little);
        lemma_four_bytes(d.subrange(12, 16), ByteOrder::Little);
        lemma_four_bytes(d.subrange(16, 20), ByteOrder::Little);
        lemma_four_bytes(d.subrange(20, 24), ByteOrder::Little);
        lemma_eight_bytes(d.subrange(24, 32), ByteOrder::Little);
        lemma_eight_bytes(d.subrange(32, 40), ByteOrder::Little);
    }
}

/// A sample with the bytes of each field in the other order gives, in that order, the
/// same event.
pub proof fn law_order_of_bytes(
    little: &[u8],
    big: &[u8],
    a: Option<AuditEvent>,
    b: Option<AuditEvent>,
)
    requires
        call_ensures(read_event, (little, ByteOrder::Little), a),
        call_ensures(read_event, (big, ByteOrder::Big), b),
        little@.len() == big@.len(),
        little@.len() >= 40,
        big@.subrange(0, 8) == little@.subrange(0, 8).reverse(),
        big@.subrange(8, 12) == little@.subrange(8, 12).reverse(),
        big@.subrange(12, 16) == little@.subrange(12, 16).reverse(),
        big@.subrange(16, 20) == little@.subrange(16, 20).reverse(),
        big@.subrange(20, 24) == little@.subrange(20, 24).reverse(),
        big@.subrange(24, 32) == little@.subrange(24, 32).reverse(),
        big@.subrange(32, 40) == little@.subrange(32, 40).reverse(),
    ensures
        a == b,
        a is Some,
{
    let x = little@;
    let y = big@;
    assert(y.subrange(0, 8).reverse() =~= x.subrange(0, 8));
    assert(y.subrange(8, 12).reverse() =~= x.subrange(8, 12));
    assert(y.subrange(12, 16).reverse() =~= x.subrange(12, 16));
    assert(y.subrange(16, 20).reverse() =~= x.subrange(16, 20));
    assert(y.subrange(20, 24).reverse() =~= x.subrange(20, 24));
    assert(y.subrange(24, 32).reverse() =~= x.subrange(24, 32));
    assert(y.subrange(32, 40).reverse() =~= x.subrange(32, 40));
}

/// A line of the log names process, role and pod in decimal, then the decision and
/// the hook by name, then the context in hexadecimal.
pub proof fn law_line_of_an_event(
    e: &AuditEvent,
    decision: &'static str,
    hooked: &'static str,
    s: String,
)
    requires
        call_ensures(format_event, (e,), s),
        call_ensures(decision_name, (e.decision,), decision),
        call_ensures(hook_name, (e.hook_type,), hooked),
    ensures
        s@ == "pid="@ + decimal(e.pid as nat) + " role_id="@ + decimal(e.role_id as nat)
            + " pod_id="@ + decimal(e.pod_id as nat) + " decision="@ + decision@ + " hook="@
            + hooked@ + " context=0x"@ + hexadecimal(e.context as nat),
{
}

/// A line keeps all that it says, and the user and the role come behind it, the user
/// first, as far as they are known.
pub proof fn law_attribution(line: &str, uid: Option<u32>, role: Option<&str>, s: String)
    requires
        call_ensures(attribute, (line, uid, role), s),
    ensures
        uid is None && role is None ==> s@ == line@,
        uid is Some && role is None ==> s@ == line@ + " uid="@ + decimal(uid->Some_0 as nat),
        uid is None && role is Some ==> s@ == line@ + " role="@ + role->Some_0@,
        uid is Some && role is Some ==> s@ == line@ + " uid="@ + decimal(uid->Some_0 as nat)
            + " role="@ + role->Some_0@,
{
}

/// Of equal events, those with the same role, hook and context, ten pass within a
/// minute of the first. An event after that minute, or the first of its kind, passes
/// and begins a minute of its own. Other events are not touched.
pub proof fn law_ten_in_a_minute(
    limiter: &mut RateLimiter,
    role_id: u32,
    hook_type: u32,
    context: u64,
    now: u128,
    r: bool,
    other: EventKey,
)
    requires
        call_ensures(RateLimiter::allow_at, (limiter, role_id, hook_type, context, now), r),
    ensures
        ({
            let key: EventKey = (role_id, hook_type, context);
            let before = old(limiter)@;
            let after = final(limiter)@;
            let fresh = !before.contains_key(key) || now - before[key].since >= 60_000_000_000;
            &&& after.contains_key(key)
            &&& fresh ==> r && after[key].count == 1 && after[key].since == now
            &&& !fresh ==> {
                &&& r <==> before[key].count < 10
                &&& after[key].since == before[key].since
                &&& after[key].count == before[key].count + 1 || (after[key].count == u32::MAX
                    && before[key].count == u32::MAX)
            }
            &&& other != key ==> {
                &&& after.contains_key(other) <==> before.contains_key(other)
                &&& before.contains_key(other) ==> after[other] == before[other]
            }
        }),
{
}

/// Forgetting drops exactly the windows that are older than a minute, and changes
/// nothing of the others.
pub proof fn law_only_old_windows_are_forgotten(
    limiter: &mut RateLimiter,
    now: u128,
    key: EventKey,
)
    requires
        call_ensures(RateLimiter::gc_at, (limiter, now), ()),
    ensures
        final(limiter)@.contains_key(key) <==> old(limiter)@.contains_key(key)
            && now - old(limiter)@[key].since < 60_000_000_000,
        final(limiter)@.contains_key(key) ==> final(limiter)@[key] == old(limiter)@[key],
{
}

/// A limiter that was just made has seen nothing.
pub proof fn law_new_limiter_is_empty(limiter: RateLimiter, key: EventKey)
    requires
        call_ensures(RateLimiter::new, (), limiter),
    ensures
        !limiter@.contains_key(key),
{
}

/// A sample is logged exactly where it is long enough and the limiter lets its event
/// through, by its role, its hook and its context; the line is that of the event. A
/// sample that is too short changes nothing. After a thousand lines, the windows that
/// are over are forgotten and the count begins anew.
pub proof fn law_samples_become_lines(
    reader: &mut AuditReader,
    data: &[u8],
    now: u128,
    later: u128,
    event: Option<AuditEvent>,
    line: Option<String>,
    s: String,
)
    requires
        call_ensures(read_event, (data, old(reader)@.order), event),
        call_ensures(AuditReader::on_sample_at, (reader, data, now, later), line),
        event is Some ==> call_ensures(format_event, (&event->Some_0,), s),
    ensures
        final(reader)@.order == old(reader)@.order,
        event is None ==> line is None && final(reader)@ == old(reader)@,
        event matches Some(e) ==> {
            let key: EventKey = (e.role_id, e.hook_type, e.context);
            let before = old(reader)@.buckets;
            let fresh = !before.contains_key(key) || now - before[key].since >= 60_000_000_000;
            let emitted = old(reader)@.emitted + 1;
            let counted_now = before.insert(key, counted(before, key, now));
            &&& line is Some <==> fresh || before[key].count < 10
            &&& line matches Some(text) ==> text@ == s@
            &&& line is None ==> final(reader)@.emitted == old(reader)@.emitted
                && final(reader)@.buckets == counted_now
            &&& line is Some && emitted < 1000 ==> final(reader)@.emitted == emitted
                && final(reader)@.buckets == counted_now
            &&& line is Some && emitted == 1000 ==> final(reader)@.emitted == 0
                && final(reader)@.buckets == unexpired(counted_now, later)
        },
{
}

/// A reader that was just made has logged nothing and reads in the order that it was
/// told.
pub proof fn law_new_reader_is_empty(order: ByteOrder, reader: AuditReader, key: EventKey)
    requires
        call_ensures(AuditReader::with_order, (order,), reader),
    ensures
        !reader@.buckets.contains_key(key),
        reader@.emitted == 0,
        reader@.order == order,
{
}

/// An event is judged by what the clock shows, as it would be at that time.
pub proof fn law_limiter_follows_the_clock(
    limiter: &mut RateLimiter,
    role_id: u32,
    hook_type: u32,
    context: u64,
    r: bool,
)
    requires
        call_ensures(RateLimiter::allow, (limiter, role_id, hook_type, context), r),
    ensures
        final(limiter).started() == old(limiter).started(),
        exists|now: u128|
            {
                let key: EventKey = (role_id, hook_type, context);
                let before = old(limiter)@;
                let fresh = !before.contains_key(key) || now - before[key].since >= 60_000_000_000;
                &&& #[trigger] clock_shows(old(limiter).started(), now)
                &&& r <==> fresh || before[key].count < 10
                &&& final(limiter)@ == before.insert(key, counted(before, key, now))
            },
{
    let key: EventKey = (role_id, hook_type, context);
    let before = old(limiter)@;
    let now = choose|now: u128|
        {
            &&& clock_shows(old(limiter).started(), now)
            &&& r == let_through(before, key, now)
            &&& final(limiter)@ == before.insert(key, #[trigger] counted(before, key, now))
        };
    assert(clock_shows(old(limiter).started(), now));
}

/// Windows are forgotten by what the clock shows.
pub proof fn law_forgetting_follows_the_clock(limiter: &mut RateLimiter, key: EventKey)
    requires
        call_ensures(RateLimiter::gc, (limiter,), ()),
    ensures
        final(limiter).started() == old(limiter).started(),
        exists|now: u128|
            {
                &&& #[trigger] clock_shows(old(limiter).started(), now)
                &&& final(limiter)@.contains_key(key) <==> old(limiter)@.contains_key(key) && now
                    - old(limiter)@[key].since < 60_000_000_000
                &&& final(limiter)@.contains_key(key) ==> final(limiter)@[key] == old(limiter)@[key]
            },
{
    let now = choose|now: u128|
        {
            &&& clock_shows(old(limiter).started(), now)
            &&& final(limiter)@ == #[trigger] unexpired(old(limiter)@, now)
        };
    assert(clock_shows(old(limiter).started(), now));
}

/// A sample is judged by what the clock shows.
pub proof fn law_reader_follows_the_clock(
    reader: &mut AuditReader,
    data: &[u8],
    event: Option<AuditEvent>,
    line: Option<String>,
    s: String,
)
    requires
        call_ensures(read_event, (data, old(reader)@.order), event),
        call_ensures(AuditReader::on_sample, (reader, data), line),
        event is Some ==> call_ensures(format_event, (&event->Some_0,), s),
    ensures
        final(reader).started() == old(reader).started(),
        final(reader)@.order == old(reader)@.order,
        event is None ==> line is None && final(reader)@ == old(reader)@,
        event matches Some(e) ==> exists|now: u128|
            {
                let key: EventKey = (e.role_id, e.hook_type, e.context);
                let before = old(reader)@.buckets;
                let fresh = !before.contains_key(key) || now - before[key].since >= 60_000_000_000;
                &&& #[trigger] clock_shows(old(reader).started(), now)
                &&& line is Some <==> fresh || before[key].count < 10
                &&& line matches Some(text) ==> text@ == s@
            },
{
    let (now, later) = choose|now: u128, later: u128|
        {
            &&& clock_shows(old(reader).started(), now)
            &&& clock_shows(old(reader).started(), later)
            &&& crate::common::optional_text(line) == sample_line(old(reader)@, data@, now)
            &&& final(reader)@ == #[trigger] after_sample(old(reader)@, data@, now, later)
        };
    assert(clock_shows(old(reader).started(), now));
}

/// The order is the one in which the machine stores numbers: the lowest byte first where
/// `u16::from_le` keeps a 1, and the highest first where it makes 256 of it.
pub proof fn law_order_of_the_machine(order: ByteOrder, reader: AuditReader)
    requires
        call_ensures(machine_order, (), order),
        call_ensures(AuditReader::new, (), reader),
    ensures
        order == ByteOrder::Little ==> call_ensures(u16::from_le, (1u16,), 1u16),
        order == ByteOrder::Big ==> call_ensures(u16::from_le, (1u16,), 256u16),
        reader@.order == ByteOrder::Little ==> call_ensures(u16::from_le, (1u16,), 1u16),
        reader@.order == ByteOrder::Big ==> call_ensures(u16::from_le, (1u16,), 256u16),
        reader@.emitted == 0,
        reader@.buckets.dom() == Set::<EventKey>::empty(),
{
    assert(reader@.buckets.dom() =~= Set::<EventKey>::empty());
}

/// What the clock shows is the time that has passed, in nanoseconds.
pub proof fn law_clock_counts_what_has_passed(start: Instant, now: u128)
    requires
        clock_shows(start, now),
    ensures
        exists|passed: Duration| #[trigger]
            call_ensures(Instant::elapsed, (&start,), passed) && call_ensures(
                Duration::as_nanos,
                (&passed,),
                now,
            ),
{
}

} // verus!

//! The load tester's decisions: how connections are batched and retried, how
//! deliveries are counted, and how benchmark messages are written and read.
use vstd::prelude::*;
use crate::text::{
    chars_of, string_of, same_chars, find_chars, copy_range, split_once_chars, contains_chars,
    find, contains, split_once_char, lemma_find_from_found, lemma_find_from_first,
    lemma_find_from_none, lemma_index_of_from_first, occurs_at, index_of, starts_with,
    starts_with_chars,
};
use crate::number::{
    decimal, decimal_string, parse_u128, parse_u128_chars, all_digits, is_digit,
    lemma_decimal_digits, law_decimal_parses_back,
};

verus! {

/// Connection attempts before `connect` gives up.
pub const CONNECT_ATTEMPTS: u32 = 6;

/// Back-off step between connection attempts, in milliseconds.
pub const BACKOFF_STEP_MS: u64 = 40;

/// The connection batches `[i, end)` that cover `[start, n)`, each at most `batch` long.
pub open spec fn batches_from(start: nat, n: nat, batch: nat) -> Seq<(nat, nat)>
    decreases n - start,
    when batch > 0
{
    if start >= n {
        Seq::empty()
    } else {
        let end = if start + batch < n {
            (start + batch) as nat
        } else {
            n
        };
        seq![(start, end)] + batches_from(end, n, batch)
    }
}

/// The batches in which `connect_many` opens `n` connections, `batch` at a time.
pub open spec fn batches(n: nat, batch: nat) -> Seq<(nat, nat)> {
    batches_from(0, n, batch)
}

/// The ranges of connection indices that are opened together.
pub fn batch_ranges(n: usize, batch: usize) -> (r: Vec<(usize, usize)>)
    requires
        batch > 0,
    ensures
        r@.map_values(|e: (usize, usize)| (e.0 as nat, e.1 as nat)) == batches(n as nat, batch as nat),
{
    let mut out: Vec<(usize, usize)> = Vec::new();
    let mut i: usize = 0;
    while i < n
        invariant
            batch > 0,
            i <= n,
            out@.map_values(|e: (usize, usize)| (e.0 as nat, e.1 as nat)) + batches_from(
                i as nat,
                n as nat,
                batch as nat,
            ) == batches(n as nat, batch as nat),
        decreases n - i,
    {
        let end = if batch < n - i {
            i + batch
        } else {
            n
        };
        let ghost before = out@;
        out.push((i, end));
        assert(out@.map_values(|e: (usize, usize)| (e.0 as nat, e.1 as nat)) =~= before.map_values(
            |e: (usize, usize)| (e.0 as nat, e.1 as nat),
        ).push((i as nat, end as nat)));
        assert(batches_from(i as nat, n as nat, batch as nat) == seq![(i as nat, end as nat)]
            + batches_from(end as nat, n as nat, batch as nat));
        assert(before.map_values(|e: (usize, usize)| (e.0 as nat, e.1 as nat)).push(
            (i as nat, end as nat),
        ) + batches_from(end as nat, n as nat, batch as nat) =~= before.map_values(
            |e: (usize, usize)| (e.0 as nat, e.1 as nat),
        ) + (seq![(i as nat, end as nat)] + batches_from(end as nat, n as nat, batch as nat)));
        i = end;
    }
    assert(batches_from(i as nat, n as nat, batch as nat) =~= Seq::<(nat, nat)>::empty());
    assert(out@.map_values(|e: (usize, usize)| (e.0 as nat, e.1 as nat)) + Seq::<(nat, nat)>::empty()
        =~= out@.map_values(|e: (usize, usize)| (e.0 as nat, e.1 as nat)));
    out
}

/// Deliveries a lobby broadcast run expects: each of `clients` sends
/// `messages` lines, and each line reaches the other `clients - 1`.
pub open spec fn broadcast_expected(clients: nat, messages: nat) -> nat {
    clients * messages * (if clients > 0 {
        (clients - 1) as nat
    } else {
        0
    })
}

/// `broadcast_expected`, in 64 bits.
pub fn broadcast_expected_deliveries(clients: usize, messages: usize) -> (r: u64)
    requires
        broadcast_expected(clients as nat, messages as nat) <= u64::MAX,
    ensures
        r == broadcast_expected(clients as nat, messages as nat),
{
    let others: u64 = if clients > 0 {
        (clients - 1) as u64
    } else {
        0
    };
    let c = clients as u64;
    let m = messages as u64;
    if c == 0 || m == 0 {
        assert(broadcast_expected(clients as nat, messages as nat) == 0) by (nonlinear_arith)
            requires
                clients == 0 || messages == 0,
        ;
        return 0;
    }
    assert(c * m <= c * m * others || others == 0) by (nonlinear_arith)
        requires
            c > 0,
            m > 0,
    ;
    if others == 0 {
        assert(broadcast_expected(clients as nat, messages as nat) == 0) by (nonlinear_arith)
            requires
                clients == 1,
        ;
        return 0;
    }
    assert(c * m <= c * m * others) by (nonlinear_arith)
        requires
            others > 0,
    ;
    c * m * others
}

/// Pairs a private-room run forms from `connected` clients.
pub fn room_pairs(connected: usize) -> (r: usize)
    ensures
        r == connected / 2,
{
    connected / 2
}

/// Deliveries a private-room run expects: in each pair, both send `messages` lines
/// to the other.
pub fn room_expected_deliveries(pairs: usize, messages: usize) -> (r: u64)
    requires
        pairs * messages * 2 <= u64::MAX,
    ensures
        r == pairs * messages * 2,
{
    let p = pairs as u64;
    let m = messages as u64;
    assert(p * m <= p * m * 2) by (nonlinear_arith);
    p * m * 2
}

/// Whether a ping run skips a size: more than a tenth of its connections failed.
pub fn too_many_failures(failed: usize, n: usize) -> (r: bool)
    ensures
        r == (failed > n / 10),
{
    failed > n / 10
}

/// `prefix` followed by the decimal notation of `n` (the load tester's
/// `/name u12`, `/join room3`).
pub fn numbered(prefix: &str, n: usize) -> (r: String)
    ensures
        r@ == prefix@ + decimal(n as nat),
{
    let mut r = String::from_str(prefix);
    let d = decimal_string(n as u128);
    r.append(d.as_str());
    r
}

/// The benchmark line `BENCH|<idx>|<seq>|<ts>`.
pub open spec fn bench_line(idx: nat, seq: nat, ts: nat) -> Seq<char> {
    "BENCH|"@ + decimal(idx) + "|"@ + decimal(seq) + "|"@ + decimal(ts)
}

/// Writes a benchmark line.
pub fn bench_payload(idx: usize, seq: usize, ts: u128) -> (r: String)
    ensures
        r@ == bench_line(idx as nat, seq as nat, ts as nat),
{
    let mut r = String::from_str("BENCH|");
    r.append(decimal_string(idx as u128).as_str());
    r.append("|");
    r.append(decimal_string(seq as u128).as_str());
    r.append("|");
    r.append(decimal_string(ts).as_str());
    r
}

/// The timestamp in a benchmark payload `BENCH|<id>|<seq>|<ts>...`: the first
/// `|`-separated field must be `BENCH`, the fourth must parse as a `u128`, and
/// anything after the fourth is ignored.
pub open spec fn payload_timestamp(payload: Seq<char>) -> Option<u128> {
    let (f0, r0) = split_once_char(payload, '|');
    if f0 != "BENCH"@ {
        None
    } else {
        match r0 {
            None => None,
            Some(r0) => match split_once_char(r0, '|').1 {
                None => None,
                Some(r1) => match split_once_char(r1, '|').1 {
                    None => None,
                    Some(r2) => parse_u128(split_once_char(r2, '|').0),
                },
            },
        }
    }
}

/// The timestamp in a received chat line `<label>: <payload>`: the payload starts
/// after the first `: `.
pub open spec fn bench_timestamp_of(msg: Seq<char>) -> Option<u128> {
    match find(msg, ": "@) {
        Some(i) => payload_timestamp(msg.skip(i + ": "@.len())),
        None => None,
    }
}

/// Reads the timestamp of a benchmark line that the server relayed.
pub fn bench_timestamp(msg: &str) -> (r: Option<u128>)
    ensures
        r == bench_timestamp_of(msg@),
{
    let m = chars_of(msg);
    let sep = chars_of(": ");
    let i = match find_chars(m.as_slice(), sep.as_slice()) {
        Some(i) => i,
        None => return None,
    };
    proof {
        lemma_find_from_found(m@, sep@, 0, i as int);
        assert(crate::text::occurs_at(m@, sep@, i as int));
    }
    assert(i + sep@.len() <= m@.len());
    let k = sep.len();
    let n = m.len();
    assert(k == sep@.len() && n == m@.len());
    let payload = copy_range(m.as_slice(), i + k, n);
    assert(payload@ =~= m@.skip(i + ": "@.len()));
    let (f0, r0) = split_once_chars(payload.as_slice(), '|');
    let bench = chars_of("BENCH");
    if !same_chars(f0.as_slice(), bench.as_slice()) {
        return None;
    }
    let r0 = match r0 {
        Some(r0) => r0,
        None => return None,
    };
    let (_, r1) = split_once_chars(r0.as_slice(), '|');
    let r1 = match r1 {
        Some(r1) => r1,
        None => return None,
    };
    let (_, r2) = split_once_chars(r1.as_slice(), '|');
    let r2 = match r2 {
        Some(r2) => r2,
        None => return None,
    };
    let (ts, _) = split_once_chars(r2.as_slice(), '|');
    parse_u128_chars(ts.as_slice())
}

/// The latency in nanoseconds of a relayed benchmark line received at `now`:
/// zero where the clock reads earlier than the stamp.
pub open spec fn bench_latency_of(msg: Seq<char>, now: u128) -> Option<u128> {
    match bench_timestamp_of(msg) {
        Some(ts) => Some(if now < ts { 0 } else { (now - ts) as u128 }),
        None => None,
    }
}

/// Computes `bench_latency_of`.
pub fn bench_latency_ns(msg: &str, now: u128) -> (r: Option<u128>)
    ensures
        r == bench_latency_of(msg@, now),
{
    match bench_timestamp(msg) {
        Some(ts) => Some(if now < ts { 0 } else { now - ts }),
        None => None,
    }
}

/// Whether `hay` contains `needle`, as `str::contains` decides it.
pub fn text_contains(hay: &str, needle: &str) -> (r: bool)
    ensures
        r == contains(hay@, needle@),
{
    let h = chars_of(hay);
    let n = chars_of(needle);
    contains_chars(h.as_slice(), n.as_slice())
}

/// Whether a connection error is worth another attempt: the local side ran out
/// of ports, addresses or file descriptors.
pub open spec fn retryable_error(msg: Seq<char>) -> bool {
    contains(msg, "Can't assign"@) || contains(msg, "Address already in use"@) || contains(
        msg,
        "Too many open files"@,
    )
}

/// Decides `retryable_error`.
pub fn is_retryable_connect_error(msg: &str) -> (r: bool)
    ensures
        r == retryable_error(msg@),
{
    text_contains(msg, "Can't assign") || text_contains(msg, "Address already in use")
        || text_contains(msg, "Too many open files")
}

/// Why a connection attempt failed.
pub enum ConnectFailure {
    /// The handshake failed with this error text.
    Error(String),
    /// The attempt took longer than the connect timeout.
    TimedOut,
}

/// What `connect` does after a failed attempt.
#[derive(PartialEq, Eq, Structural)]
pub enum ConnectStep {
    /// Stop and report the last error now.
    GiveUp,
    /// Sleep `ms` milliseconds; then try again where `retry` holds, or report the
    /// last error.
    Wait { ms: u64, retry: bool },
}

/// The retry state of one `connect`: attempts made so far and the last error.
pub struct ConnectRetry {
    attempts: u32,
    last: String,
}

impl View for ConnectRetry {
    type V = (u32, Seq<char>);

    closed spec fn view(&self) -> (u32, Seq<char>) {
        (self.attempts, self.last@)
    }
}

/// The pause after failed attempt number `attempt` (counted from 0).
pub open spec fn backoff_ms(attempt: u32) -> u64 {
    (BACKOFF_STEP_MS * (attempt + 1)) as u64
}

impl ConnectRetry {
    /// No attempt made yet; the error reported if nothing else is known is
    /// `connect failed`.
    pub fn new() -> (r: ConnectRetry)
        ensures
            r@ == (0u32, "connect failed"@),
    {
        ConnectRetry { attempts: 0, last: String::from_str("connect failed") }
    }

    /// The error text to report.
    pub fn last_error(&self) -> (r: String)
        ensures
            r@ == self@.1,
    {
        self.last.clone()
    }

    /// Records a failed attempt and says what to do next: an error that more
    /// attempts cannot cure ends the retries at once; otherwise wait a growing
    /// pause, and try again unless this was the last allowed attempt.
    pub fn record_failure(&mut self, failure: ConnectFailure) -> (r: ConnectStep)
        requires
            old(self)@.0 < CONNECT_ATTEMPTS,
        ensures
            match failure {
                ConnectFailure::Error(e) => final(self)@.1 == e@ && if retryable_error(e@) {
                    &&& final(self)@.0 == old(self)@.0 + 1
                    &&& r == ConnectStep::Wait {
                        ms: backoff_ms(old(self)@.0),
                        retry: old(self)@.0 + 1 < CONNECT_ATTEMPTS,
                    }
                } else {
                    &&& final(self)@.0 == old(self)@.0
                    &&& r == ConnectStep::GiveUp
                },
                ConnectFailure::TimedOut => {
                    &&& final(self)@.1 == "connect timeout"@
                    &&& final(self)@.0 == old(self)@.0 + 1
                    &&& r == ConnectStep::Wait {
                        ms: backoff_ms(old(self)@.0),
                        retry: old(self)@.0 + 1 < CONNECT_ATTEMPTS,
                    }
                },
            },
    {
        match failure {
            ConnectFailure::Error(e) => {
                let retryable = is_retryable_connect_error(e.as_str());
                self.last = e;
                if !retryable {
                    return ConnectStep::GiveUp;
                }
            },
            ConnectFailure::TimedOut => {
                self.last = String::from_str("connect timeout");
            },
        }
        let ms = BACKOFF_STEP_MS * (self.attempts as u64 + 1);
        self.attempts = self.attempts + 1;
        ConnectStep::Wait { ms, retry: self.attempts < CONNECT_ATTEMPTS }
    }
}

/// The kinds of WebSocket message a client can receive.
#[derive(PartialEq, Eq, Structural)]
pub enum FrameKind {
    Text,
    Binary,
    Ping,
    Pong,
    Close,
    Raw,
}

/// What the client does with a received message.
#[derive(PartialEq, Eq, Structural)]
pub enum FrameAction {
    /// Hand the text to the caller.
    Deliver,
    /// Ignore it and wait for the next one.
    Skip,
    /// Fail: the message was not expected.
    Reject,
}

/// Text is delivered, control and raw frames are skipped, anything else fails.
pub fn frame_action(kind: FrameKind) -> (r: FrameAction)
    ensures
        r == match kind {
            FrameKind::Text => FrameAction::Deliver,
            FrameKind::Ping | FrameKind::Pong | FrameKind::Raw => FrameAction::Skip,
            FrameKind::Binary | FrameKind::Close => FrameAction::Reject,
        },
{
    match kind {
        FrameKind::Text => FrameAction::Deliver,
        FrameKind::Ping | FrameKind::Pong | FrameKind::Raw => FrameAction::Skip,
        FrameKind::Binary | FrameKind::Close => FrameAction::Reject,
    }
}

/// One functional check: its name, whether it passed, and what was seen.
pub struct Check {
    pub name: String,
    pub ok: bool,
    pub detail: String,
}

impl View for Check {
    type V = (Seq<char>, bool, Seq<char>);

    open spec fn view(&self) -> (Seq<char>, bool, Seq<char>) {
        (self.name@, self.ok, self.detail@)
    }
}

/// The functional checks run so far.
pub struct FunctionalReport {
    checks: Vec<Check>,
}

/// Whether every check of `cs` passed.
pub open spec fn all_passed(cs: Seq<(Seq<char>, bool, Seq<char>)>) -> bool {
    forall|i: int| 0 <= i < cs.len() ==> #[trigger] cs[i].1
}

impl View for FunctionalReport {
    type V = Seq<(Seq<char>, bool, Seq<char>)>;

    closed spec fn view(&self) -> Seq<(Seq<char>, bool, Seq<char>)> {
        self.checks@.map_values(|c: Check| c@)
    }
}

impl FunctionalReport {
    /// A report with no checks.
    pub fn new() -> (r: FunctionalReport)
        ensures
            r@ == Seq::<(Seq<char>, bool, Seq<char>)>::empty(),
    {
        let r = FunctionalReport { checks: Vec::new() };
        assert(r@ =~= Seq::<(Seq<char>, bool, Seq<char>)>::empty());
        r
    }

    /// Records a check.
    pub fn push(&mut self, name: &str, ok: bool, detail: String)
        ensures
            final(self)@ == old(self)@.push((name@, ok, detail@)),
    {
        let ghost before = self@;
        self.checks.push(Check { name: String::from_str(name), ok, detail });
        assert(self@ =~= before.push((name@, ok, detail@)));
    }

    /// Whether every recorded check passed (so, with none recorded, `true`).
    pub fn passed(&self) -> (r: bool)
        ensures
            r == all_passed(self@),
    {
        let mut i: usize = 0;
        while i < self.checks.len()
            invariant
                i <= self@.len(),
                self@.len() == self.checks@.len(),
                forall|j: int| 0 <= j < i ==> #[trigger] self@[j].1,
            decreases self.checks.len() - i,
        {
            if !self.checks[i].ok {
                assert(!self@[i as int].1);
                return false;
            }
            i = i + 1;
        }
        true
    }

    /// The recorded checks, in order.
    pub fn checks(&self) -> (r: &Vec<Check>)
        ensures
            r@.map_values(|c: Check| c@) == self@,
    {
        &self.checks
    }
}

/// A digit string followed by `|` splits at that `|`.
proof fn lemma_split_after_digits(a: Seq<char>, rest: Seq<char>)
    requires
        all_digits(a),
    ensures
        split_once_char(a + "|"@ + rest, '|') == (a, Some(rest)),
{
    reveal_strlit("|");
    let t = a + "|"@ + rest;
    assert forall|j: int| 0 <= j < a.len() implies t[j] != '|' by {
        assert(t[j] == a[j]);
        assert(is_digit(a[j]));
    }
    assert(t[a.len() as int] == '|');
    lemma_index_of_from_first(t, '|', 0, a.len() as int);
    assert(t.take(a.len() as int) =~= a);
    assert(t.skip(a.len() as int + 1) =~= rest);
}

/// A digit string holds no `|`.
proof fn lemma_digits_have_no_bar(a: Seq<char>)
    requires
        all_digits(a),
    ensures
        split_once_char(a, '|') == (a, None::<Seq<char>>),
{
    assert forall|j: int| 0 <= j < a.len() implies a[j] != '|' by {
        assert(is_digit(a[j]));
    }
    lemma_index_of_from_first(a, '|', 0, a.len() as int);
}

/// A benchmark line relayed under a label reads back its timestamp, provided the
/// label holds no `: ` (the load tester's labels are `u<n>` and `r<n>`).
pub proof fn law_bench_line_reads_back(label: Seq<char>, idx: usize, seq: usize, ts: u128)
    requires
        !contains(label, ": "@),
    ensures
        bench_timestamp_of(label + ": "@ + bench_line(idx as nat, seq as nat, ts as nat)) == Some(ts),
{
    reveal_strlit(": ");
    reveal_strlit("BENCH|");
    reveal_strlit("BENCH");
    reveal_strlit("|");
    let sep = ": "@;
    let a = decimal(idx as nat);
    let b = decimal(seq as nat);
    let c = decimal(ts as nat);
    let payload = bench_line(idx as nat, seq as nat, ts as nat);
    let msg = label + sep + payload;
    let n = label.len() as int;
    lemma_find_from_none(label, sep, 0);
    assert forall|i: int| 0 <= i < n implies !occurs_at(msg, sep, i) by {
        if i + 2 <= n {
            assert(msg.subrange(i, i + 2) =~= label.subrange(i, i + 2));
            assert(!occurs_at(label, sep, i));
        } else {
            assert(msg.subrange(i, i + 2)[1] == ':');
        }
    }
    assert(msg.subrange(n, n + 2) =~= sep);
    lemma_find_from_first(msg, sep, 0, n);
    assert(msg.skip(n + sep.len()) =~= payload);
    lemma_decimal_digits(idx as nat);
    lemma_decimal_digits(seq as nat);
    lemma_decimal_digits(ts as nat);
    let bench = "BENCH"@;
    let r0 = a + "|"@ + b + "|"@ + c;
    assert(payload =~= bench + "|"@ + r0);
    assert forall|j: int| 0 <= j < bench.len() implies payload[j] != '|' by {
        assert(payload[j] == bench[j]);
    }
    lemma_index_of_from_first(payload, '|', 0, 5);
    assert(payload.take(5) =~= bench);
    assert(payload.skip(6) =~= r0);
    assert(r0 =~= a + "|"@ + (b + "|"@ + c));
    lemma_split_after_digits(a, b + "|"@ + c);
    lemma_split_after_digits(b, c);
    lemma_digits_have_no_bar(c);
    law_decimal_parses_back(ts);
}

/// The batches from `start` tile `[start, n)` in order: each starts where the
/// previous one ended, all but the last hold exactly `batch` indices, and none
/// is empty or longer than `batch`.
pub proof fn lemma_batches_from(start: nat, n: nat, batch: nat)
    requires
        batch > 0,
    ensures
        ({
            let b = batches_from(start, n, batch);
            &&& (b.len() == 0 <==> start >= n)
            &&& b.len() > 0 ==> b[0].0 == start && b.last().1 == n
            &&& forall|k: int| 0 <= k < b.len() ==> (#[trigger] b[k]).0 < b[k].1 <= b[k].0 + batch
            &&& forall|k: int| 0 <= k < b.len() - 1 ==> (#[trigger] b[k]).1 == b[k + 1].0 && b[k].1
                == b[k].0 + batch
        }),
    decreases n - start,
{
    if start < n {
        let end = if start + batch < n {
            (start + batch) as nat
        } else {
            n
        };
        lemma_batches_from(end, n, batch);
        let rest = batches_from(end, n, batch);
        let b = batches_from(start, n, batch);
        assert(b == seq![(start, end)] + rest);
        assert forall|k: int| 0 <= k < b.len() implies (#[trigger] b[k]).0 < b[k].1 <= b[k].0 + batch by {
            if k > 0 {
                assert(b[k] == rest[k - 1]);
            }
        }
        assert forall|k: int| 0 <= k < b.len() - 1 implies (#[trigger] b[k]).1 == b[k + 1].0 && b[k].1
            == b[k].0 + batch by {
            assert(b[k + 1] == rest[k]);
            if k > 0 {
                assert(b[k] == rest[k - 1]);
            } else {
                assert(rest.len() > 0);
            }
        }
        if rest.len() > 0 {
            assert(b.last() == rest.last());
        }
    }
}

/// `connect_many`'s batches cover the indices `0..n` exactly once, in order, at
/// most `batch` at a time.
pub proof fn law_batches_partition(n: nat, batch: nat)
    requires
        batch > 0,
    ensures
        ({
            let b = batches(n, batch);
            &&& (b.len() == 0 <==> n == 0)
            &&& b.len() > 0 ==> b[0].0 == 0 && b.last().1 == n
            &&& forall|k: int| 0 <= k < b.len() ==> (#[trigger] b[k]).0 < b[k].1 <= b[k].0 + batch
            &&& forall|k: int| 0 <= k < b.len() - 1 ==> (#[trigger] b[k]).1 == b[k + 1].0 && b[k].1
                == b[k].0 + batch
        }),
{
    lemma_batches_from(0, n, batch);
}

/// Whether `r` is the outcome of a functional check that passed exactly when `ok`
/// holds, with `detail` as what is reported either way.
pub open spec fn check_outcome(r: Result<String, String>, ok: bool, detail: Seq<char>) -> bool {
    match r {
        Ok(d) => ok && d@ == detail,
        Err(e) => !ok && e@ == detail,
    }
}

/// The outcome of a check: passed when `ok`, reporting `detail` either way.
fn outcome(ok: bool, detail: String) -> (r: Result<String, String>)
    ensures
        check_outcome(r, ok, detail@),
{
    if ok {
        Ok(detail)
    } else {
        Err(detail)
    }
}

/// `a`, then `b`.
fn concat2(a: &str, b: &str) -> (r: String)
    ensures
        r@ == a@ + b@,
{
    let mut r = String::from_str(a);
    r.append(b);
    r
}

/// `a`, then `b`, then `c`.
fn concat3(a: &str, b: &str, c: &str) -> (r: String)
    ensures
        r@ == a@ + b@ + c@,
{
    let mut r = String::from_str(a);
    r.append(b);
    r.append(c);
    r
}

/// The `/ping` check: the reply must be exactly `pong`.
pub fn check_ping(reply: &str) -> (r: Result<String, String>)
    ensures
        check_outcome(
            r,
            reply@ == "pong"@,
            if reply@ == "pong"@ {
                reply@
            } else {
                "got "@ + reply@
            },
        ),
{
    let ok = same_chars(chars_of(reply).as_slice(), chars_of("pong").as_slice());
    if ok {
        outcome(true, String::from_str(reply))
    } else {
        outcome(false, concat2("got ", reply))
    }
}

/// The `/name` check: each of the three replies names its sender.
pub fn check_names(ra: &str, rb: &str, rc: &str) -> (r: Result<String, String>)
    ensures
        check_outcome(
            r,
            contains(ra@, "Alice"@) && contains(rb@, "Bob"@) && contains(rc@, "Cara"@),
            ra@ + " | "@ + rb@ + " | "@ + rc@,
        ),
{
    let ok = text_contains(ra, "Alice") && text_contains(rb, "Bob") && text_contains(rc, "Cara");
    let mut d = concat3(ra, " | ", rb);
    d.append(" | ");
    d.append(rc);
    outcome(ok, d)
}

/// The `/who` check: the reply lists Bob and Cara.
pub fn check_who(reply: &str) -> (r: Result<String, String>)
    ensures
        check_outcome(r, contains(reply@, "Bob"@) && contains(reply@, "Cara"@), reply@),
{
    let ok = text_contains(reply, "Bob") && text_contains(reply, "Cara");
    outcome(ok, String::from_str(reply))
}

/// The `/count` check: the reply mentions 3.
pub fn check_count(reply: &str) -> (r: Result<String, String>)
    ensures
        check_outcome(r, contains(reply@, "3"@), reply@),
{
    outcome(text_contains(reply, "3"), String::from_str(reply))
}

/// The lobby broadcast check: Bob and Cara both received Alice's line.
pub fn check_lobby(rb: &str, rc: &str) -> (r: Result<String, String>)
    ensures
        check_outcome(
            r,
            contains(rb@, "Alice: hello-lobby"@) && contains(rc@, "Alice: hello-lobby"@),
            "bob="@ + rb@ + " cara="@ + rc@,
        ),
{
    let ok = text_contains(rb, "Alice: hello-lobby") && text_contains(rc, "Alice: hello-lobby");
    let mut d = concat3("bob=", rb, " cara=");
    d.append(rc);
    outcome(ok, d)
}

/// The `/dm` check: Bob received Alice's direct message.
pub fn check_dm(rb: &str) -> (r: Result<String, String>)
    ensures
        check_outcome(r, contains(rb@, "(DM from Alice)"@) && contains(rb@, "secret-dm"@), rb@),
{
    let ok = text_contains(rb, "(DM from Alice)") && text_contains(rb, "secret-dm");
    outcome(ok, String::from_str(rb))
}

/// Whether a reply confirms the join to room `rust`.
pub fn confirms_join(ra: &str) -> (r: bool)
    ensures
        r == contains(ra@, "Joined room: rust"@),
{
    text_contains(ra, "Joined room: rust")
}

/// The room isolation check: what Bob received while Alice spoke in `rust`,
/// if anything, must not be her room's line.
pub fn check_isolation(leak: Option<&str>) -> (r: Result<String, String>)
    ensures
        match leak {
            Some(m) => if contains(m@, "only-rust"@) {
                check_outcome(r, false, "lobby leaked room msg: "@ + m@)
            } else {
                check_outcome(r, true, "room isolation ok"@)
            },
            None => check_outcome(r, true, "room isolation ok"@),
        },
{
    match leak {
        Some(m) => if text_contains(m, "only-rust") {
            outcome(false, concat2("lobby leaked room msg: ", m))
        } else {
            outcome(true, String::from_str("room isolation ok"))
        },
        None => outcome(true, String::from_str("room isolation ok")),
    }
}

/// The same-room check: Bob, now in `rust`, received Alice's line, and Cara, in
/// the lobby, did not (`leak` is what Cara received meanwhile, if anything).
pub fn check_room_chat(rb: &str, leak: Option<&str>) -> (r: Result<String, String>)
    ensures
        ({
            let isolated = !(leak matches Some(m) && contains(m@, "rust-hello"@));
            check_outcome(
                r,
                contains(rb@, "Alice: rust-hello"@) && isolated,
                if contains(rb@, "Alice: rust-hello"@) && isolated {
                    "bob="@ + rb@
                } else {
                    "bob="@ + rb@ + " isolated="@ + (if isolated {
                        "true"@
                    } else {
                        "false"@
                    })
                },
            )
        }),
{
    let isolated = match leak {
        Some(m) => !text_contains(m, "rust-hello"),
        None => true,
    };
    let ok = text_contains(rb, "Alice: rust-hello") && isolated;
    if ok {
        outcome(true, concat2("bob=", rb))
    } else {
        let mut d = concat3("bob=", rb, " isolated=");
        if isolated {
            d.append("true");
        } else {
            d.append("false");
        }
        outcome(false, d)
    }
}

/// The `/get_rooms` check: the listing names `lobby` and `rust`.
pub fn check_rooms(reply: &str) -> (r: Result<String, String>)
    ensures
        check_outcome(r, contains(reply@, "lobby"@) && contains(reply@, "rust"@), reply@),
{
    let ok = text_contains(reply, "lobby") && text_contains(reply, "rust");
    outcome(ok, String::from_str(reply))
}

/// Whether a private-room run has the two connections it needs at least.
pub fn enough_sockets(connected: usize) -> (r: bool)
    ensures
        r == (connected >= 2),
{
    connected >= 2
}

/// Whether a reply confirms a `/name`.
pub fn is_name_confirmation(msg: &str) -> (r: bool)
    ensures
        r == starts_with(msg@, "name set to"@),
{
    starts_with_chars(chars_of(msg).as_slice(), chars_of("name set to").as_slice())
}

} // verus!

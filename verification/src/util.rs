//! Small shared helpers: wall clock, rolling windows, digests, reconnect
//! backoff.

use std::collections::VecDeque;

use hmac::Mac;
use sha2::Digest;
use vstd::prelude::*;

use crate::time;
use crate::time::{Duration, Instant};

verus! {

/// A wall-clock reading since the Unix epoch: whole seconds and the nanoseconds
/// of the last one. `None` when the clock stands before the epoch.
pub open spec fn is_reading(t: Option<(u64, u32)>) -> bool {
    t matches Some(r) ==> r.1 < 1_000_000_000
}

/// Milliseconds of a reading.
pub open spec fn reading_ms(t: Option<(u64, u32)>) -> u128 {
    match t {
        Some((secs, nanos)) => (secs * 1000 + nanos / 1_000_000) as u128,
        None => 0,
    }
}

/// Whole seconds of a reading.
pub open spec fn reading_secs(t: Option<(u64, u32)>) -> u64 {
    match t {
        Some((secs, nanos)) => secs,
        None => 0,
    }
}

/// `std::time::SystemTime::now` and `duration_since(UNIX_EPOCH)`: the wall clock
/// as seconds and nanoseconds. Of the time itself nothing is claimed; the
/// nanoseconds of a `std::time::Duration` stay below one second.
#[verifier::external_body]
fn wall_clock() -> (t: Option<(u64, u32)>)
    ensures
        is_reading(t),
{
    match std::time::SystemTime::now().duration_since(std::time::UNIX_EPOCH) {
        Ok(d) => Some((d.as_secs(), d.subsec_nanos())),
        Err(_) => None,
    }
}

/// Milliseconds of a wall-clock reading, cut to 64 bits.
pub fn ms_of(t: Option<(u64, u32)>) -> (r: i64)
    requires
        is_reading(t),
    ensures
        r == reading_ms(t) as i64,
{
    match t {
        Some((secs, nanos)) => {
            let ms: u128 = secs as u128 * 1000 + (nanos / 1_000_000) as u128;
            #[verifier::truncate]
            (ms as i64)
        },
        None => 0,
    }
}

/// Seconds of a wall-clock reading, cut to a signed 64-bit value.
pub fn secs_of(t: Option<(u64, u32)>) -> (r: i64)
    ensures
        r == reading_secs(t) as i64,
{
    match t {
        Some((secs, _)) => {
            #[verifier::truncate]
            (secs as i64)
        },
        None => 0,
    }
}

/// Milliseconds since the Unix epoch, 0 before it.
pub fn unix_ms() -> (r: i64)
    ensures
        exists|t: Option<(u64, u32)>| is_reading(t) && r == #[trigger] reading_ms(t) as i64,
{
    let t = wall_clock();
    ms_of(t)
}

/// Seconds since the Unix epoch, 0 before it.
pub fn unix_secs() -> (r: i64)
    ensures
        exists|t: Option<(u64, u32)>| is_reading(t) && r == #[trigger] reading_secs(t) as i64,
{
    let t = wall_clock();
    secs_of(t)
}

/// Time-bounded rolling window of `(Instant, T)` samples.
pub struct TimeWindow<T> {
    pub span: Duration,
    pub items: VecDeque<(Instant, T)>,
}

/// Samples without the leading ones that are older than `span`.
pub open spec fn pruned<T>(items: Seq<(Instant, T)>, now: Instant, span: Duration) -> Seq<
    (Instant, T),
>
    decreases items.len(),
{
    if items.len() > 0 && time::elapsed(items[0].0, now).nanos > span.nanos {
        pruned(items.subrange(1, items.len() as int), now, span)
    } else {
        items
    }
}

impl<T> View for TimeWindow<T> {
    type V = Seq<(Instant, T)>;

    open spec fn view(&self) -> Seq<(Instant, T)> {
        self.items@
    }
}

impl<T: Copy> TimeWindow<T> {
    pub fn new(span: Duration) -> (w: TimeWindow<T>)
        ensures
            w.span == span,
            w@ == Seq::<(Instant, T)>::empty(),
    {
        TimeWindow { span, items: VecDeque::new() }
    }

    /// Adds a sample and drops those that it makes too old.
    pub fn push(&mut self, at: Instant, v: T)
        ensures
            final(self)@ == pruned(old(self)@.push((at, v)), at, old(self).span),
            final(self).span == old(self).span,
    {
        self.items.push_back((at, v));
        self.evict(at);
    }

    /// Drops the leading samples that are older than the span.
    pub fn evict(&mut self, now: Instant)
        ensures
            final(self)@ == pruned(old(self)@, now, old(self).span),
            final(self).span == old(self).span,
    {
        loop
            invariant
                self.span == old(self).span,
                pruned(self@, now, self.span) == pruned(old(self)@, now, self.span),
            ensures
                self@ == pruned(old(self)@, now, old(self).span),
                self.span == old(self).span,
            decreases self@.len(),
        {
            if self.items.len() == 0 {
                break;
            }
            let t = self.items[0].0;
            if now.saturating_duration_since(t).nanos <= self.span.nanos {
                break;
            }
            let _ = self.items.pop_front();
        }
    }

    pub fn len(&self) -> (r: usize)
        ensures
            r == self@.len(),
    {
        self.items.len()
    }

    pub fn clear(&mut self)
        ensures
            final(self)@ == Seq::<(Instant, T)>::empty(),
            final(self).span == old(self).span,
    {
        self.items.clear();
    }

    /// The sampled values, oldest first.
    pub fn values(&self) -> (r: Vec<T>)
        ensures
            r@ == self@.map_values(|x: (Instant, T)| x.1),
    {
        let mut r: Vec<T> = Vec::new();
        let mut i: usize = 0;
        while i < self.items.len()
            invariant
                i <= self.items.len(),
                r@ == self@.take(i as int).map_values(|x: (Instant, T)| x.1),
            decreases self.items.len() - i,
        {
            r.push(self.items[i].1);
            i = i + 1;
            assert(r@ =~= self@.take(i as int).map_values(|x: (Instant, T)| x.1));
        }
        assert(self@.take(i as int) =~= self@);
        r
    }

    /// Latest sample that is not later than `at`.
    pub fn at_or_before(&self, at: Instant) -> (r: Option<&(Instant, T)>)
        ensures
            match r {
                Some(x) => exists|i: int|
                    0 <= i < self@.len() && #[trigger] self@[i] == *x && x.0.nanos <= at.nanos
                        && forall|j: int|
                        i < j < self@.len() ==> (#[trigger] self@[j]).0.nanos > at.nanos,
                None => forall|j: int|
                    0 <= j < self@.len() ==> (#[trigger] self@[j]).0.nanos > at.nanos,
            },
    {
        let mut n: usize = self.items.len();
        while n > 0
            invariant
                n <= self.items.len(),
                forall|j: int| n <= j < self@.len() ==> (#[trigger] self@[j]).0.nanos > at.nanos,
            decreases n,
        {
            if self.items[n - 1].0.nanos <= at.nanos {
                assert(self@[n - 1] == self.items@[n - 1]);
                return Some(&self.items[n - 1]);
            }
            n = n - 1;
        }
        None
    }
}

/// After an eviction no leading sample is older than the span, and what is left
/// is the end of what was there.
pub proof fn eviction_leaves_a_fresh_tail<T>(
    items: Seq<(Instant, T)>,
    now: Instant,
    span: Duration,
)
    ensures
        pruned(items, now, span).len() <= items.len(),
        pruned(items, now, span) == items.subrange(
            items.len() - pruned(items, now, span).len(),
            items.len() as int,
        ),
        pruned(items, now, span).len() > 0 ==> time::elapsed(
            pruned(items, now, span)[0].0,
            now,
        ).nanos <= span.nanos,
    decreases items.len(),
{
    if items.len() > 0 && time::elapsed(items[0].0, now).nanos > span.nanos {
        let rest = items.subrange(1, items.len() as int);
        eviction_leaves_a_fresh_tail(rest, now, span);
        assert(pruned(items, now, span) =~= items.subrange(
            items.len() - pruned(items, now, span).len(),
            items.len() as int,
        ));
    } else {
        assert(items.subrange(0, items.len() as int) =~= items);
    }
}

/// What HMAC-SHA-512 gives for a key and a message.
pub uninterp spec fn hmac_sha512_of(key: Seq<u8>, message: Seq<u8>) -> Seq<u8>;

/// What SHA-512 gives for a message.
pub uninterp spec fn sha512_of(message: Seq<u8>) -> Seq<u8>;

/// `hmac::Hmac::<sha2::Sha512>` fed with the key and the message and finalised:
/// the code is a function of the two and has 64 bytes. It takes keys of any
/// length.
#[verifier::external_body]
fn hmac_sha512(key: &[u8], message: &[u8]) -> (r: Vec<u8>)
    ensures
        r@ == hmac_sha512_of(key@, message@),
        r@.len() == 64,
{
    let mut mac = <hmac::Hmac<sha2::Sha512> as Mac>::new_from_slice(key).expect("any key length");
    mac.update(message);
    mac.finalize().into_bytes().to_vec()
}

/// `sha2::Sha512::digest`: the digest is a function of the message and has 64
/// bytes.
#[verifier::external_body]
fn sha512(message: &[u8]) -> (r: Vec<u8>)
    ensures
        r@ == sha512_of(message@),
        r@.len() == 64,
{
    sha2::Sha512::digest(message).to_vec()
}

/// Lower-case hexadecimal digit.
pub open spec fn hex_digit(d: u8) -> char {
    if d < 10 {
        (48 + d) as char
    } else {
        (87 + d) as char
    }
}

/// Two lower-case hexadecimal digits per byte, the high half first.
pub open spec fn hex_text(bytes: Seq<u8>) -> Seq<char> {
    Seq::new(
        2 * bytes.len(),
        |i: int|
            hex_digit(
                if i % 2 == 0 {
                    bytes[i / 2] / 16
                } else {
                    bytes[i / 2] % 16
                },
            ),
    )
}

/// `hex::encode`: two lower-case hexadecimal digits per byte, the high half
/// first.
#[verifier::external_body]
fn hex_encode(bytes: &Vec<u8>) -> (r: String)
    ensures
        r@ == hex_text(bytes@),
{
    hex::encode(bytes)
}

/// HMAC-SHA512 hex digest.
pub fn hmac_sha512_hex(secret: &str, message: &str) -> (r: String)
    ensures
        r@ == hex_text(
            hmac_sha512_of(vstd::utf8::encode_utf8(secret@), vstd::utf8::encode_utf8(message@)),
        ),
        r@.len() == 128,
{
    let code = hmac_sha512(secret.as_bytes(), message.as_bytes());
    hex_encode(&code)
}

/// SHA512 hex digest of a body.
pub fn sha512_hex(body: &str) -> (r: String)
    ensures
        r@ == hex_text(sha512_of(vstd::utf8::encode_utf8(body@))),
        r@.len() == 128,
{
    let digest = sha512(body.as_bytes());
    hex_encode(&digest)
}

/// Twice a delay in nanoseconds, up to the maximum.
pub open spec fn grown_delay(cur: Duration, max: Duration) -> int {
    if 2 * cur.nanos <= max.nanos {
        2 * cur.nanos
    } else {
        max.nanos as int
    }
}

/// Exponential backoff for reconnect loops.
#[derive(Debug, Clone, Copy, PartialEq, Eq, Structural)]
pub struct Backoff {
    pub cur: Duration,
    pub max: Duration,
}

impl Backoff {
    pub fn new(start: Duration, max: Duration) -> (b: Backoff)
        ensures
            b == (Backoff { cur: start, max }),
    {
        Backoff { cur: start, max }
    }

    /// The current delay; the next one is twice as long, up to the maximum.
    pub fn next(&mut self) -> (d: Duration)
        requires
            2 * old(self).cur.nanos <= u128::MAX,
        ensures
            d == old(self).cur,
            final(self).max == old(self).max,
            final(self).cur.nanos == grown_delay(old(self).cur, old(self).max),
    {
        let d = self.cur;
        let doubled: u128 = self.cur.nanos * 2;
        self.cur = if doubled <= self.max.nanos {
            Duration::from_nanos(doubled)
        } else {
            self.max
        };
        d
    }

    /// Back to half a second.
    pub fn reset(&mut self)
        ensures
            final(self).cur == time::spec_from_millis(500),
            final(self).max == old(self).max,
    {
        self.cur = Duration::from_millis(500);
    }
}

/// Once at or below the maximum, a delay grows towards it and never exceeds it.
pub proof fn backoff_stays_below_its_maximum(cur: Duration, max: Duration)
    requires
        cur.nanos <= max.nanos,
    ensures
        grown_delay(cur, max) <= max.nanos,
        0 < cur.nanos < max.nanos ==> grown_delay(cur, max) > cur.nanos,
{
}

/// `rest` is the end of `all` from the first sample on that is at most `nanos`
/// old; all samples before that one are older.
pub open spec fn fresh_tail<T>(
    all: Seq<(Instant, T)>,
    rest: Seq<(Instant, T)>,
    now: Instant,
    nanos: int,
) -> bool {
    let gone = all.len() - rest.len();
    &&& 0 <= gone
    &&& rest == all.subrange(gone, all.len() as int)
    &&& forall|i: int| 0 <= i < gone ==> now.nanos - (#[trigger] all[i]).0.nanos > nanos
    &&& rest.len() > 0 ==> now.nanos - rest[0].0.nanos <= nanos
}

/// An eviction drops the leading samples that are older than the span and keeps
/// everything from the first fresh one on.
pub proof fn evictions_drop_what_is_too_old<T>(
    items: Seq<(Instant, T)>,
    now: Instant,
    span: Duration,
)
    ensures
        fresh_tail(items, pruned(items, now, span), now, span.nanos as int),
    decreases items.len(),
{
    if items.len() > 0 && now.nanos - items[0].0.nanos > span.nanos {
        let rest = items.subrange(1, items.len() as int);
        let kept = pruned(rest, now, span);
        evictions_drop_what_is_too_old(rest, now, span);
        assert(pruned(items, now, span) == kept);
        let gone = items.len() - kept.len();
        assert(kept =~= items.subrange(gone, items.len() as int));
        assert forall|i: int| 0 <= i < gone implies now.nanos - (#[trigger] items[i]).0.nanos
            > span.nanos by {
            if i > 0 {
                assert(rest[i - 1] == items[i]);
            }
        }
    } else {
        assert(pruned(items, now, span) == items);
        assert(items.subrange(0, items.len() as int) =~= items);
    }
}

/// A delay doubles until the maximum caps it.
pub proof fn delays_double_up_to_the_maximum(cur: Duration, max: Duration)
    ensures
        2 * cur.nanos <= max.nanos ==> grown_delay(cur, max) == cur.nanos + cur.nanos,
        2 * cur.nanos > max.nanos ==> grown_delay(cur, max) == max.nanos,
{
}

/// A reading counts a thousand milliseconds per second and one per million
/// nanoseconds; before the epoch the clock reads zero.
pub proof fn readings_are_counted_in_milliseconds(secs: u64, nanos: u32)
    requires
        nanos < 1_000_000_000,
    ensures
        ({
            let ms = reading_ms(Some((secs, nanos)));
            &&& ms * 1_000_000 <= secs * 1_000_000_000 + nanos
            &&& secs * 1_000_000_000 + nanos < (ms + 1) * 1_000_000
        }),
        reading_secs(Some((secs, nanos))) == secs,
        reading_ms(None) == 0,
        reading_secs(None) == 0,
{
}

/// Each byte is written as two digits that give its value back, the digits above
/// nine as the letters from `a` on.
pub proof fn hexadecimal_reads_back(bytes: Seq<u8>, i: int)
    requires
        0 <= i < bytes.len(),
    ensures
        hex_text(bytes).len() == 2 * bytes.len(),
        ({
            let high = bytes[i] as int / 16;
            let low = bytes[i] as int % 16;
            let t = hex_text(bytes);
            &&& t[2 * i] as int == (if high < 10 {
                '0' as int + high
            } else {
                'a' as int + high - 10
            })
            &&& t[2 * i + 1] as int == (if low < 10 {
                '0' as int + low
            } else {
                'a' as int + low - 10
            })
        }),
{
    assert((2 * i) % 2 == 0 && (2 * i) / 2 == i);
    assert((2 * i + 1) % 2 == 1 && (2 * i + 1) / 2 == i);
}

} // verus!

//! UUID generation: version 7 (millisecond timestamp + random bits) and
//! version 4 (random bits), rendered in the hyphenated hexadecimal layout.
use vstd::prelude::*;

use crate::text::push_char;

verus! {

/// Lower-case hexadecimal digit of `n` (`n < 16`).
pub open spec fn hex_digit(n: u8) -> char {
    if n < 10 {
        (('0' as u8) + n) as char
    } else {
        (('a' as u8) + (n - 10)) as char
    }
}

/// The two lower-case hexadecimal digits of `b`.
pub open spec fn hex_byte(b: u8) -> Seq<char> {
    seq![hex_digit(b / 16), hex_digit(b % 16)]
}

/// The hexadecimal digits of `s`, two per byte.
pub open spec fn hex_bytes(s: Seq<u8>) -> Seq<char>
    decreases s.len(),
{
    if s.len() == 0 {
        Seq::empty()
    } else {
        hex_bytes(s.drop_last()) + hex_byte(s.last())
    }
}

/// The hyphenated rendering of 16 bytes: groups of 4, 2, 2, 2 and 6 bytes.
pub open spec fn uuid_text(b: Seq<u8>) -> Seq<char> {
    hex_bytes(b.subrange(0, 4)) + seq!['-'] + hex_bytes(b.subrange(4, 6)) + seq!['-']
        + hex_bytes(b.subrange(6, 8)) + seq!['-'] + hex_bytes(b.subrange(8, 10)) + seq!['-']
        + hex_bytes(b.subrange(10, 16))
}

/// `b` with the version nibble set to `version` and the RFC 4122 variant bits.
pub open spec fn stamp(b: Seq<u8>, version: u8) -> Seq<u8> {
    b.update(6, (b[6] & 0x0f) | (version << 4u8)).update(8, (b[8] & 0x3f) | 0x80)
}

/// One step of the linear congruential generator.
pub open spec fn lcg_next(seed: u64) -> u64 {
    seed.wrapping_mul(6364136223846793005u64).wrapping_add(1442695040888963407u64)
}

/// The generator state after `k` steps from `seed`.
pub open spec fn lcg_state(seed: u64, k: nat) -> u64
    decreases k,
{
    if k == 0 { seed } else { lcg_next(lcg_state(seed, (k - 1) as nat)) }
}

/// The `n` bytes the generator yields from `seed`: byte `i` is bits 32..40
/// of the state after `i + 1` steps.
pub open spec fn lcg_bytes(seed: u64, n: nat) -> Seq<u8> {
    Seq::new(n, |i: int| (lcg_state(seed, (i + 1) as nat) >> 32u64) as u8)
}

/// The current time in milliseconds since the Unix epoch, zero when the
/// clock reads before it.
pub fn now_millis() -> (ms: u64)
    ensures
        exists|a: Option<u128>| ms == millis_of(a),
{
    let reading = unix_time_nanos();
    let ms: u64 = match reading {
        Some(n) => (n / 1_000_000) as u64,
        None => 0,
    };
    assert(ms == millis_of(reading));
    ms
}

/// The bytes `lo..hi` of `v`.
pub fn byte_range(v: &Vec<u8>, lo: usize, hi: usize) -> (r: Vec<u8>)
    requires
        lo <= hi <= v.len(),
    ensures
        r@ == v@.subrange(lo as int, hi as int),
{
    let mut r: Vec<u8> = Vec::new();
    let mut i = lo;
    while i < hi
        invariant
            lo <= i <= hi <= v.len(),
            r@ == v@.subrange(lo as int, i as int),
        decreases hi - i,
    {
        r.push(v[i]);
        assert(r@ =~= v@.subrange(lo as int, i + 1));
        i = i + 1;
    }
    r
}

/// The 16 bytes of a version 7 UUID before stamping: the 48-bit big-endian
/// millisecond timestamp, then ten random bytes.
pub open spec fn v7_raw(ms: u64, rand: Seq<u8>) -> Seq<u8> {
    Seq::new(6, |i: int| ((ms >> (8 * (5 - i)) as u64) & 0xff) as u8) + rand.take(10)
}

fn exec_hex_digit(n: u8) -> (c: char)
    requires
        n < 16,
    ensures
        c == hex_digit(n),
{
    if n < 10 {
        (('0' as u8) + n) as char
    } else {
        (('a' as u8) + (n - 10)) as char
    }
}

fn append_hex(s: &mut String, b: &Vec<u8>, lo: usize, hi: usize)
    requires
        lo <= hi <= b.len(),
    ensures
        final(s)@ == old(s)@ + hex_bytes(b@.subrange(lo as int, hi as int)),
{
    let mut i = lo;
    assert(b@.subrange(lo as int, lo as int) =~= Seq::<u8>::empty());
    assert(old(s)@ + Seq::<char>::empty() =~= old(s)@);
    while i < hi
        invariant
            lo <= i <= hi <= b.len(),
            s@ == old(s)@ + hex_bytes(b@.subrange(lo as int, i as int)),
        decreases hi - i,
    {
        let x = b[i];
        let ghost before = s@;
        push_char(s, exec_hex_digit(x / 16));
        push_char(s, exec_hex_digit(x % 16));
        assert(b@.subrange(lo as int, i + 1).drop_last() =~= b@.subrange(lo as int, i as int));
        assert(s@ =~= before + hex_byte(x));
        i = i + 1;
    }
}

proof fn lemma_hex_bytes_len(s: Seq<u8>)
    ensures
        hex_bytes(s).len() == 2 * s.len(),
    decreases s.len(),
{
    if s.len() > 0 {
        lemma_hex_bytes_len(s.drop_last());
    }
}

/// Renders 16 bytes as a hyphenated UUID string of 36 characters.
pub fn format_uuid(b: &Vec<u8>) -> (r: String)
    requires
        b.len() == 16,
    ensures
        r@ == uuid_text(b@),
        r@.len() == 36,
{
    let mut s = String::new();
    append_hex(&mut s, b, 0, 4);
    push_char(&mut s, '-');
    append_hex(&mut s, b, 4, 6);
    push_char(&mut s, '-');
    append_hex(&mut s, b, 6, 8);
    push_char(&mut s, '-');
    append_hex(&mut s, b, 8, 10);
    push_char(&mut s, '-');
    append_hex(&mut s, b, 10, 16);
    proof {
        lemma_hex_bytes_len(b@.subrange(0, 4));
        lemma_hex_bytes_len(b@.subrange(4, 6));
        lemma_hex_bytes_len(b@.subrange(6, 8));
        lemma_hex_bytes_len(b@.subrange(8, 10));
        lemma_hex_bytes_len(b@.subrange(10, 16));
    }
    assert(s@ =~= uuid_text(b@));
    s
}

/// `len` pseudorandom bytes from the linear congruential generator seeded
/// with `seed`.
pub fn lcg_fill(seed: u64, len: usize) -> (r: Vec<u8>)
    ensures
        r@ == lcg_bytes(seed, len as nat),
{
    let mut state = seed;
    let mut out: Vec<u8> = Vec::new();
    let mut i: usize = 0;
    while i < len
        invariant
            i <= len,
            state == lcg_state(seed, i as nat),
            out@ == lcg_bytes(seed, i as nat),
        decreases len - i,
    {
        state = state.wrapping_mul(6364136223846793005u64).wrapping_add(1442695040888963407u64);
        out.push((state >> 32u64) as u8);
        assert(out@ =~= lcg_bytes(seed, (i + 1) as nat));
        i = i + 1;
    }
    out
}

proof fn lemma_hex_two(x: u8, y: u8)
    ensures
        hex_bytes(seq![x, y]) == hex_byte(x) + hex_byte(y),
{
    let xy = seq![x, y];
    let xs = seq![x];
    assert(xy.drop_last() =~= xs);
    assert(xs.drop_last() =~= Seq::<u8>::empty());
    assert(hex_bytes(Seq::<u8>::empty()) =~= Seq::<char>::empty());
    assert(hex_bytes(xs) == hex_bytes(xs.drop_last()) + hex_byte(xs.last()));
    assert(hex_bytes(xs) =~= hex_byte(x));
    assert(hex_bytes(xy) == hex_bytes(xy.drop_last()) + hex_byte(xy.last()));
}

/// In the rendering of stamped bytes, character 14 is the version digit and
/// character 19 is one of `8`, `9`, `a`, `b`.
pub proof fn lemma_stamp_digits(b: Seq<u8>, version: u8)
    requires
        b.len() == 16,
        version < 16,
    ensures
        uuid_text(stamp(b, version))[14] == hex_digit(version),
        8 <= stamp(b, version)[8] / 16 <= 11,
        uuid_text(stamp(b, version))[19] == hex_digit(stamp(b, version)[8] / 16),
{
    let t = stamp(b, version);
    let b6 = b[6];
    let b8 = b[8];
    assert(((b6 & 0x0f) | (version << 4u8)) / 16 == version) by (bit_vector)
        requires
            version < 16;
    assert(8 <= ((b8 & 0x3f) | 0x80) / 16 <= 11) by (bit_vector);
    assert(t.subrange(6, 8) =~= seq![t[6], t[7]]);
    assert(t.subrange(8, 10) =~= seq![t[8], t[9]]);
    lemma_hex_two(t[6], t[7]);
    lemma_hex_two(t[8], t[9]);
    lemma_hex_bytes_len(t.subrange(0, 4));
    lemma_hex_bytes_len(t.subrange(4, 6));
    lemma_hex_bytes_len(t.subrange(6, 8));
    let u = uuid_text(t);
    let p0 = hex_bytes(t.subrange(0, 4)) + seq!['-'] + hex_bytes(t.subrange(4, 6)) + seq!['-'];
    assert(p0.len() == 14);
    let p1 = p0 + hex_bytes(t.subrange(6, 8)) + seq!['-'];
    assert(p1.len() == 19);
    assert(u[14] == hex_bytes(t.subrange(6, 8))[0]);
    assert(u[19] == hex_bytes(t.subrange(8, 10))[0]);
}

/// The time type of the standard library's system clock.
#[verifier::external_type_specification]
#[verifier::external_body]
pub struct ExSystemTime(std::time::SystemTime);

/// `SystemTime::now`: the current time of the system clock. Nothing is
/// promised of it: it depends on the time.
#[verifier::external_body]
fn system_now() -> (r: std::time::SystemTime) {
    std::time::SystemTime::now()
}

/// `SystemTime::duration_since(UNIX_EPOCH)`: the time elapsed since the
/// Unix epoch; none when `t` lies before it. Nothing is promised of the
/// duration, which depends on `t`, a clock reading.
#[verifier::external_body]
fn since_epoch(t: &std::time::SystemTime) -> (r: Option<std::time::Duration>) {
    t.duration_since(std::time::UNIX_EPOCH).ok()
}

/// `Duration::as_nanos`: the whole nanoseconds of `d`. Nothing is stated
/// of the number, `d` being opaque here.
#[verifier::external_body]
fn duration_nanos(d: &std::time::Duration) -> (r: u128) {
    d.as_nanos()
}

/// Nanoseconds since the Unix epoch, read from the system clock; `None`
/// when the clock reads before the epoch.
fn unix_time_nanos() -> (r: Option<u128>) {
    let now = system_now();
    match since_epoch(&now) {
        Some(d) => Some(duration_nanos(&d)),
        None => None,
    }
}

/// The millisecond timestamp taken from a clock reading (zero when the
/// clock was unavailable).
pub open spec fn millis_of(reading: Option<u128>) -> u64 {
    match reading {
        Some(n) => (n / 1_000_000) as u64,
        None => 0,
    }
}

/// The generator seed taken from a clock reading.
pub open spec fn seed_of(reading: Option<u128>) -> u64 {
    match reading {
        Some(n) => n as u64,
        None => 123456789,
    }
}

/// The 16 bytes of a version 7 UUID: big-endian millisecond timestamp in the
/// first six bytes, ten random bytes, version 7 and the RFC 4122 variant.
pub open spec fn v7_bytes(ms: u64, rand: Seq<u8>) -> Seq<u8> {
    stamp(v7_raw(ms, rand), 7)
}

/// The 16 bytes of a version 4 UUID: sixteen random bytes with version 4
/// and the RFC 4122 variant.
pub open spec fn v4_bytes(rand: Seq<u8>) -> Seq<u8> {
    stamp(rand.take(16), 4)
}

fn stamp_exec(b: &mut Vec<u8>, version: u8)
    requires
        old(b).len() == 16,
        version < 16,
    ensures
        final(b)@ == stamp(old(b)@, version),
{
    let b6 = b[6];
    let b8 = b[8];
    b.set(6, (b6 & 0x0f) | (version << 4u8));
    b.set(8, (b8 & 0x3f) | 0x80);
}

/// The version 7 UUID with timestamp `ms` and random bytes `rand`.
pub fn uuid_v7_from_parts(ms: u64, rand: &Vec<u8>) -> (r: String)
    requires
        rand.len() >= 10,
    ensures
        r@ == uuid_text(v7_bytes(ms, rand@)),
        r@.len() == 36,
        r@[14] == '7',
{
    let mut b: Vec<u8> = Vec::new();
    b.push(((ms >> 40u64) & 0xff) as u8);
    b.push(((ms >> 32u64) & 0xff) as u8);
    b.push(((ms >> 24u64) & 0xff) as u8);
    b.push(((ms >> 16u64) & 0xff) as u8);
    b.push(((ms >> 8u64) & 0xff) as u8);
    b.push((ms & 0xff) as u8);
    assert(ms >> 0u64 == ms) by (bit_vector);
    let ghost head = Seq::new(6, |i: int| ((ms >> (8 * (5 - i)) as u64) & 0xff) as u8);
    assert(head[0] == b@[0] && head[1] == b@[1] && head[2] == b@[2]);
    assert(head[3] == b@[3] && head[4] == b@[4] && head[5] == b@[5]);
    assert(b@ =~= head);
    let mut i: usize = 0;
    while i < 10
        invariant
            rand.len() >= 10,
            i <= 10,
            b@.len() == 6 + i,
            b@.take(6) == head,
            head == Seq::new(6, |i: int| ((ms >> (8 * (5 - i)) as u64) & 0xff) as u8),
            forall|k: int| 0 <= k < i ==> b@[6 + k] == rand@[k],
        decreases 10 - i,
    {
        b.push(rand[i]);
        i = i + 1;
    }
    assert(b@ =~= v7_raw(ms, rand@));
    stamp_exec(&mut b, 7);
    proof {
        lemma_stamp_digits(v7_raw(ms, rand@), 7);
    }
    let r = format_uuid(&b);
    assert(hex_digit(7) == '7');
    r
}

/// The version 4 UUID made of the random bytes `rand`.
pub fn uuid_v4_from_random(rand: &Vec<u8>) -> (r: String)
    requires
        rand.len() >= 16,
    ensures
        r@ == uuid_text(v4_bytes(rand@)),
        r@.len() == 36,
        r@[14] == '4',
{
    let mut b: Vec<u8> = Vec::new();
    let mut i: usize = 0;
    while i < 16
        invariant
            rand.len() >= 16,
            i <= 16,
            b@ =~= rand@.take(i as int),
        decreases 16 - i,
    {
        b.push(rand[i]);
        i = i + 1;
    }
    stamp_exec(&mut b, 4);
    proof {
        lemma_stamp_digits(rand@.take(16), 4);
    }
    let r = format_uuid(&b);
    assert(hex_digit(4) == '4');
    r
}

/// A version 7 UUID from the current time and bits from the generator
/// seeded with the clock.
pub fn generate_uuid_v7() -> (r: String)
    ensures
        exists|a: Option<u128>, b: Option<u128>|
            r@ == uuid_text(v7_bytes(millis_of(a), lcg_bytes(seed_of(b), 10))),
        r@.len() == 36,
        r@[14] == '7',
{
    let reading = unix_time_nanos();
    let ms: u64 = match reading {
        Some(n) => (n / 1_000_000) as u64,
        None => 0,
    };
    let seed_reading = unix_time_nanos();
    let seed: u64 = match seed_reading {
        Some(n) => n as u64,
        None => 123456789,
    };
    let rand = lcg_fill(seed, 10);
    let r = uuid_v7_from_parts(ms, &rand);
    assert(r@ == uuid_text(v7_bytes(millis_of(reading), lcg_bytes(seed_of(seed_reading), 10))));
    r
}

/// A version 4 UUID from bits of the generator seeded with the clock.
pub fn generate_uuid_v4() -> (r: String)
    ensures
        exists|b: Option<u128>| r@ == uuid_text(v4_bytes(lcg_bytes(seed_of(b), 16))),
        r@.len() == 36,
        r@[14] == '4',
{
    let reading = unix_time_nanos();
    let seed: u64 = match reading {
        Some(n) => n as u64,
        None => 123456789,
    };
    let rand = lcg_fill(seed, 16);
    let r = uuid_v4_from_random(&rand);
    assert(r@ == uuid_text(v4_bytes(lcg_bytes(seed_of(reading), 16))));
    r
}

/// A HubGS reference UUID: a version 7 UUID.
pub fn generate_uuid_ref() -> (r: String)
    ensures
        exists|a: Option<u128>, b: Option<u128>|
            r@ == uuid_text(v7_bytes(millis_of(a), lcg_bytes(seed_of(b), 10))),
        r@.len() == 36,
        r@[14] == '7',
{
    generate_uuid_v7()
}

} // verus!

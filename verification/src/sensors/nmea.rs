//! The satellite receiver: text sentences to positions.
//!
//! Two kinds of sentences are read, those with position and altitude (GGA) and those
//! with position and velocity over the ground (RMC). The first fix with an altitude
//! becomes the origin of all positions.

use crate::single::Single;
use crate::units::{Meter, MeterPerSecond, PI_BITS};
use crate::vehicle::PosSample;
use vstd::prelude::*;

verus! {

/// The room for one line. A burst of both kinds of sentences fits.
pub const LINE_LEN: usize = 160;

const LF: u8 = 0x0A;

const CR: u8 = 0x0D;

const COMMA: u8 = 0x2C;

const STAR: u8 = 0x2A;

const DOT: u8 = 0x2E;

/// The line without the carriage return at its end.
pub open spec fn without_cr(s: Seq<u8>) -> Seq<u8> {
    if s.len() > 0 && s.last() == 0x0D {
        s.drop_last()
    } else {
        s
    }
}

/// A line that is not complete yet: its bytes, and whether it was too long, in which case
/// it is discarded.
pub struct Pending {
    pub text: Seq<u8>,
    pub lost: bool,
}

impl Pending {
    /// The start of a line.
    pub open spec fn none() -> Pending {
        Pending { text: Seq::empty(), lost: false }
    }

    /// After one byte more. A line feed ends the line. A line that does not fit is
    /// discarded up to its line feed.
    pub open spec fn after(self, b: u8) -> Pending {
        if b == 0x0A {
            Pending::none()
        } else if self.lost || self.text.len() >= LINE_LEN {
            Pending { text: Seq::empty(), lost: true }
        } else {
            Pending { text: self.text.push(b), lost: false }
        }
    }

    /// The line that a line feed completes; a discarded one is empty.
    pub open spec fn completed(self) -> Seq<u8> {
        if self.lost {
            Seq::empty()
        } else {
            without_cr(self.text)
        }
    }
}

/// Collects bytes into lines.
pub struct NmeaLine {
    buf: [u8; 160],
    len: usize,
    lost: bool,
}

impl View for NmeaLine {
    type V = Pending;

    /// The line that is not complete yet.
    closed spec fn view(&self) -> Pending {
        Pending { text: self.buf@.take(self.len as int), lost: self.lost }
    }
}

impl NmeaLine {
    #[verifier::type_invariant]
    spec fn inv(&self) -> bool {
        self.len <= LINE_LEN && (self.lost ==> self.len == 0)
    }

    /// The first `n` bytes of the buffer.
    pub closed spec fn text(&self, n: int) -> Seq<u8> {
        self.buf@.take(n)
    }

    /// Nothing is pending, and the buffer is all zeros.
    pub fn new() -> (r: NmeaLine)
        ensures
            r@ == Pending::none(),
            forall|n: int|
                0 <= n <= LINE_LEN ==> #[trigger] r.text(n) == Seq::new(n as nat, |i: int| 0u8),
    {
        let r = NmeaLine { buf: [0u8; 160], len: 0, lost: false };
        assert(r@.text =~= Seq::<u8>::empty());
        assert forall|n: int| 0 <= n <= LINE_LEN implies #[trigger] r.text(n) == Seq::new(
            n as nat,
            |i: int| 0u8,
        ) by {
            assert(r.text(n) =~= Seq::new(n as nat, |i: int| 0u8));
        }
        r
    }

    /// Takes in one byte. Where it completes a line, returns the length of the line,
    /// which stands at the start of the buffer until the next byte. A line that was too
    /// long is completed as an empty one.
    pub fn push(&mut self, b: u8) -> (r: Option<usize>)
        ensures
            final(self)@ == old(self)@.after(b),
            r is Some <==> b == 0x0A,
            r matches Some(n) ==> {
                &&& n <= LINE_LEN
                &&& n == old(self)@.completed().len()
                &&& final(self).text(n as int) == old(self)@.completed()
            },
    {
        proof {
            use_type_invariant(&*self);
        }
        if b == LF {
            let mut n: usize = self.len;
            if n > 0 && self.buf[n - 1] == CR {
                n -= 1;
            }
            self.len = 0;
            self.lost = false;
            assert(self@.text =~= Seq::<u8>::empty());
            assert(self.text(n as int) =~= old(self)@.completed());
            Some(n)
        } else {
            if self.lost {
                assert(self@.text =~= Seq::<u8>::empty());
            } else if self.len < LINE_LEN {
                self.buf[self.len] = b;
                self.len += 1;
                assert(self@.text =~= old(self)@.text.push(b));
            } else {
                self.len = 0;
                self.lost = true;
                assert(self@.text =~= Seq::<u8>::empty());
            }
            None
        }
    }

    /// The line of `n` bytes that `push` has just completed.
    pub fn line(&self, n: usize) -> (r: &[u8])
        requires
            n <= LINE_LEN,
        ensures
            r@ == self.text(n as int),
    {
        assert(self.buf@.subrange(0, n as int) =~= self.buf@.take(n as int));
        vstd::slice::slice_subrange(self.buf.as_slice(), 0, n)
    }
}

/// Whether a byte ends a field.
pub open spec fn is_separator(b: u8) -> bool {
    b == 0x2C || b == 0x2A
}

/// The length of the first field.
pub open spec fn first_len(s: Seq<u8>) -> int
    decreases s.len(),
{
    if s.len() == 0 || is_separator(s[0]) {
        0
    } else {
        1 + first_len(s.drop_first())
    }
}

/// Field `idx` of a line, counted from zero, where the line has that many.
pub open spec fn field(s: Seq<u8>, idx: nat) -> Option<Seq<u8>>
    decreases idx,
{
    let k = first_len(s);
    if idx == 0 {
        Some(s.take(k))
    } else if k < s.len() {
        field(s.skip(k + 1), (idx - 1) as nat)
    } else {
        None
    }
}

proof fn lemma_first_len(s: Seq<u8>, k: int)
    requires
        0 <= k <= s.len(),
        forall|j: int| 0 <= j < k ==> !is_separator(#[trigger] s[j]),
        k < s.len() ==> is_separator(s[k]),
    ensures
        first_len(s) == k,
    decreases k,
{
    if k > 0 {
        let t = s.drop_first();
        assert forall|j: int| 0 <= j < k - 1 implies !is_separator(#[trigger] t[j]) by {
            assert(t[j] == s[j + 1]);
        }
        lemma_first_len(t, k - 1);
    }
}

/// What is known of a number while its digits are read.
pub struct Digits {
    pub whole: Single,
    pub part: Single,
    pub scale: Single,
    pub after_point: bool,
}

/// Whether a byte continues a number.
pub open spec fn is_numeric(b: u8) -> bool {
    b == 0x2E || 0x30 <= b <= 0x39
}

impl Digits {
    pub open spec fn start() -> Digits {
        Digits {
            whole: Single::of_int(0),
            part: Single::of_int(0),
            scale: Single::of_ratio(1, 10),
            after_point: false,
        }
    }

    /// After one byte more of the number.
    pub open spec fn next(self, b: u8) -> Digits {
        let d = Single::of_int(b - 0x30);
        if b == 0x2E {
            Digits { after_point: true, ..self }
        } else if self.after_point {
            Digits {
                part: self.part + d * self.scale,
                scale: self.scale * Single::of_ratio(1, 10),
                ..self
            }
        } else {
            Digits { whole: self.whole * Single::of_int(10) + d, ..self }
        }
    }
}

/// What is known after the first `n` bytes of a number.
pub open spec fn digits_of(s: Seq<u8>, n: nat) -> Digits
    decreases n,
{
    if n == 0 {
        Digits::start()
    } else {
        digits_of(s, (n - 1) as nat).next(s[n - 1])
    }
}

/// How many bytes at the start belong to a number.
pub open spec fn numeric_len(s: Seq<u8>) -> nat
    decreases s.len(),
{
    if s.len() == 0 || !is_numeric(s[0]) {
        0
    } else {
        1 + numeric_len(s.drop_first())
    }
}

/// The number at the start of a field, without sign; zero where there is none.
pub open spec fn decimal(s: Seq<u8>) -> Single {
    let d = digits_of(s, numeric_len(s));
    d.whole + d.part
}

proof fn lemma_numeric_len(s: Seq<u8>, k: nat)
    requires
        k <= s.len(),
        forall|j: int| 0 <= j < k ==> is_numeric(#[trigger] s[j]),
        k < s.len() ==> !is_numeric(s[k as int]),
    ensures
        numeric_len(s) == k,
    decreases k,
{
    if k > 0 {
        let t = s.drop_first();
        assert forall|j: int| 0 <= j < k - 1 implies is_numeric(#[trigger] t[j]) by {
            assert(t[j] == s[j + 1]);
        }
        lemma_numeric_len(t, (k - 1) as nat);
    }
}

/// Reads the number in `line[from..to]`.
fn parse_float(line: &[u8], from: usize, to: usize) -> (r: Single)
    requires
        from <= to <= line@.len(),
    ensures
        r == decimal(line@.subrange(from as int, to as int)),
{
    let ghost s = line@.subrange(from as int, to as int);
    let tenth: Single = Single::ratio(1, 10);
    let ten: Single = Single::from_i32(10);
    let mut val: Single = Single::from_i32(0);
    let mut frac: Single = Single::from_i32(0);
    let mut fscale: Single = tenth;
    let mut in_frac: bool = false;
    let mut i: usize = from;
    while i < to && (line[i] == DOT || (0x30 <= line[i] && line[i] <= 0x39))
        invariant
            from <= i <= to <= line@.len(),
            s == line@.subrange(from as int, to as int),
            tenth == Single::of_ratio(1, 10),
            ten == Single::of_int(10),
            forall|j: int| 0 <= j < i - from ==> is_numeric(#[trigger] s[j]),
            digits_of(s, (i - from) as nat) == (Digits {
                whole: val,
                part: frac,
                scale: fscale,
                after_point: in_frac,
            }),
        decreases to - i,
    {
        let b: u8 = line[i];
        assert(b == s[i - from]);
        if b == DOT {
            in_frac = true;
        } else {
            let d: Single = Single::from_i32((b - 0x30) as i32);
            if in_frac {
                frac = frac + d * fscale;
                fscale = fscale * tenth;
            } else {
                val = val * ten + d;
            }
        }
        i += 1;
    }
    proof {
        if i < to {
            assert(s[i - from] == line@[i as int]);
        }
        lemma_numeric_len(s, (i - from) as nat);
    }
    val + frac
}

/// The number in field `idx`; zero where there is none.
pub fn field_f32(line: &[u8], idx: usize) -> (r: Single)
    ensures
        r == match field(line@, idx as nat) {
            Some(f) => decimal(f),
            None => Single::of_int(0),
        },
{
    let mut start: usize = 0;
    let mut cur: usize = 0;
    let mut i: usize = 0;
    assert(line@.skip(0) =~= line@);
    while i < line.len()
        invariant
            start <= i <= line@.len(),
            cur <= idx,
            cur <= i,
            forall|j: int| start <= j < i ==> !is_separator(#[trigger] line@[j]),
            field(line@, idx as nat) == field(line@.skip(start as int), (idx - cur) as nat),
        decreases line@.len() - i,
    {
        if line[i] == COMMA || line[i] == STAR {
            proof {
                let rest = line@.skip(start as int);
                assert forall|j: int| 0 <= j < i - start implies !is_separator(
                    #[trigger] rest[j],
                ) by {
                    assert(rest[j] == line@[start + j]);
                }
                lemma_first_len(rest, i - start);
                assert(rest.take(i - start) =~= line@.subrange(start as int, i as int));
                assert(rest.skip(i - start + 1) =~= line@.skip(i + 1));
            }
            if cur == idx {
                return parse_float(line, start, i);
            }
            cur += 1;
            start = i + 1;
        }
        i += 1;
    }
    proof {
        let rest = line@.skip(start as int);
        assert forall|j: int| 0 <= j < i - start implies !is_separator(#[trigger] rest[j]) by {
            assert(rest[j] == line@[start + j]);
        }
        lemma_first_len(rest, i - start);
        assert(rest.take(i - start) =~= line@.subrange(start as int, i as int));
    }
    if cur == idx {
        return parse_float(line, start, line.len());
    }
    Single::from_i32(0)
}

/// The first byte of field `idx`; zero where there is none.
pub open spec fn letter(s: Seq<u8>, idx: nat) -> u8 {
    match field(s, idx) {
        Some(f) => if f.len() > 0 {
            f[0]
        } else {
            0
        },
        None => 0,
    }
}

/// The first byte of field `idx`; zero where there is none.
pub fn field_char(line: &[u8], idx: usize) -> (r: u8)
    ensures
        r == letter(line@, idx as nat),
{
    let mut start: usize = 0;
    let mut cur: usize = 0;
    let mut i: usize = 0;
    assert(line@.skip(0) =~= line@);
    while i < line.len()
        invariant
            start <= i <= line@.len(),
            cur <= idx,
            cur <= i,
            forall|j: int| start <= j < i ==> !is_separator(#[trigger] line@[j]),
            field(line@, idx as nat) == field(line@.skip(start as int), (idx - cur) as nat),
        decreases line@.len() - i,
    {
        if line[i] == COMMA || line[i] == STAR {
            proof {
                let rest = line@.skip(start as int);
                assert forall|j: int| 0 <= j < i - start implies !is_separator(
                    #[trigger] rest[j],
                ) by {
                    assert(rest[j] == line@[start + j]);
                }
                lemma_first_len(rest, i - start);
                assert(rest.skip(i - start + 1) =~= line@.skip(i + 1));
            }
            if cur == idx {
                return if start < i {
                    line[start]
                } else {
                    0
                };
            }
            cur += 1;
            start = i + 1;
        }
        i += 1;
    }
    proof {
        let rest = line@.skip(start as int);
        assert forall|j: int| 0 <= j < i - start implies !is_separator(#[trigger] rest[j]) by {
            assert(rest[j] == line@[start + j]);
        }
        lemma_first_len(rest, i - start);
    }
    if cur == idx && start < line.len() {
        return line[start];
    }
    0
}

/// Degrees and minutes written as one number, in degrees.
pub open spec fn degrees_of(dm: Single) -> Single {
    let n = dm.saturated(i32::MIN as int, i32::MAX as int);
    let deg = if n >= 0 {
        n / 100
    } else {
        -((-n) / 100)
    };
    Single::of_int(deg) + (dm - Single::of_int(deg) * Single::of_int(100)) / Single::of_int(60)
}

pub fn dm_to_deg(dm: Single) -> (r: Single)
    ensures
        r == degrees_of(dm),
{
    let n: i32 = dm.to_i32();
    let deg: i32 = if n >= 0 {
        n / 100
    } else {
        -((-(n as i64)) / 100) as i32
    };
    let d: Single = Single::from_i32(deg);
    let min: Single = dm - d * Single::from_i32(100);
    d + min / Single::from_i32(60)
}

/// The value of a hexadecimal digit, or nothing.
pub open spec fn hex_digit(b: u8) -> Option<u8> {
    if 0x30 <= b <= 0x39 {
        Some((b - 0x30) as u8)
    } else if 0x41 <= b <= 0x46 {
        Some((b - 0x41 + 10) as u8)
    } else if 0x61 <= b <= 0x66 {
        Some((b - 0x61 + 10) as u8)
    } else {
        None
    }
}

/// The value of a hexadecimal digit, minus one for any other byte.
pub fn hex_val(b: u8) -> (r: i32)
    ensures
        r == match hex_digit(b) {
            Some(v) => v as int,
            None => -1,
        },
{
    match b {
        0x30..=0x39 => (b - 0x30) as i32,
        0x41..=0x46 => (b - 0x41 + 10) as i32,
        0x61..=0x66 => (b - 0x61 + 10) as i32,
        _ => -1,
    }
}

/// All bytes combined by exclusive or.
pub open spec fn parity(s: Seq<u8>) -> u8
    decreases s.len(),
{
    if s.len() == 0 {
        0
    } else {
        parity(s.drop_last()) ^ s.last()
    }
}

/// Whether position `k` holds the first star after the first byte.
pub open spec fn star_at(s: Seq<u8>, k: int) -> bool {
    &&& 1 <= k < s.len()
    &&& s[k] == 0x2A
    &&& forall|j: int| 1 <= j < k ==> #[trigger] s[j] != 0x2A
}

/// Whether two hexadecimal digits follow the star at `k` and give the parity of what
/// stands between the first byte and the star.
pub open spec fn parity_matches(s: Seq<u8>, k: int) -> bool {
    &&& k + 2 < s.len()
    &&& hex_digit(s[k + 1]) is Some
    &&& hex_digit(s[k + 2]) is Some
    &&& parity(s.subrange(1, k)) == hex_digit(s[k + 1])->0 * 16 + hex_digit(s[k + 2])->0
}

/// Whether a line ends in its checksum.
pub open spec fn checksum_holds(s: Seq<u8>) -> bool {
    exists|k: int| #[trigger] star_at(s, k) && parity_matches(s, k)
}

pub fn nmea_checksum_ok(line: &[u8]) -> (r: bool)
    ensures
        r == checksum_holds(line@),
{
    let mut star: usize = 1;
    let mut cs: u8 = 0;
    while star < line.len() && line[star] != STAR
        invariant
            1 <= star,
            star <= line@.len() || star == 1,
            forall|j: int| 1 <= j < star ==> #[trigger] line@[j] != 0x2A,
            star <= line@.len() ==> cs == parity(line@.subrange(1, star as int)),
        decreases line@.len() - star,
    {
        let ghost before = line@.subrange(1, star as int);
        cs = cs ^ line[star];
        star += 1;
        assert(line@.subrange(1, star as int).drop_last() =~= before);
    }
    if star >= line.len() {
        return false;
    }
    assert(star_at(line@, star as int));
    assert(forall|k: int| #[trigger] star_at(line@, k) ==> k == star);
    if line.len() - star <= 2 {
        return false;
    }
    let hi: i32 = hex_val(line[star + 1]);
    let lo: i32 = hex_val(line[star + 2]);
    if hi < 0 || lo < 0 {
        return false;
    }
    cs as i32 == hi * 16 + lo
}

/// Speed over the ground, in metres per second, and its direction, in radians from
/// north towards east.
#[derive(Clone, Copy, Debug, PartialEq)]
pub struct Doppler {
    pub speed: Single,
    pub course: Single,
}

/// One fix: degrees, metres above the sea, and the motion where it was sent.
#[derive(Clone, Copy, Debug, PartialEq)]
pub struct Fix {
    pub lat: Single,
    pub lon: Single,
    pub alt: Single,
    pub doppler: Option<Doppler>,
}

/// What a line tells.
#[derive(Clone, Copy, Debug, PartialEq)]
pub enum Sentence {
    /// Nothing of interest, or damaged.
    Ignored,
    /// There is no fix.
    NoFix,
    Position(Fix),
    Motion(Fix),
}

/// Whether a line starts with a dollar sign, one of the two talkers, and `kind`.
pub open spec fn is_kind(s: Seq<u8>, kind: Seq<u8>) -> bool {
    &&& s.len() >= 6
    &&& s[0] == 0x24
    &&& s[1] == 0x47
    &&& s[2] == 0x50 || s[2] == 0x4E
    &&& s.subrange(3, 6) == kind
}

pub open spec fn gga() -> Seq<u8> {
    seq![0x47u8, 0x47u8, 0x41u8]
}

pub open spec fn rmc() -> Seq<u8> {
    seq![0x52u8, 0x4Du8, 0x43u8]
}

fn has_kind(line: &[u8], a: u8, b: u8, c: u8) -> (r: bool)
    ensures
        r == is_kind(line@, seq![a, b, c]),
{
    if line.len() < 6 {
        return false;
    }
    proof {
        let s = line@.subrange(3, 6);
        if s == seq![a, b, c] {
            assert(s[0] == a && s[1] == b && s[2] == c);
        }
        if line@[3] == a && line@[4] == b && line@[5] == c {
            assert(s =~= seq![a, b, c]);
        }
    }
    line[0] == 0x24 && line[1] == 0x47 && (line[2] == 0x50 || line[2] == 0x4E) && line[3] == a
        && line[4] == b && line[5] == c
}

/// The number in field `idx`, zero where there is none.
pub open spec fn number_in(s: Seq<u8>, idx: nat) -> Single {
    match field(s, idx) {
        Some(f) => decimal(f),
        None => Single::of_int(0),
    }
}

/// The angle in field `idx`, turned where the next field holds `opposite`.
pub open spec fn angle_in(s: Seq<u8>, idx: nat, opposite: u8) -> Single {
    let a = degrees_of(number_in(s, idx));
    if letter(s, idx + 1) == opposite {
        a.negated()
    } else {
        a
    }
}

fn angle_field(line: &[u8], idx: usize, opposite: u8) -> (r: Single)
    requires
        idx < usize::MAX,
    ensures
        r == angle_in(line@, idx as nat, opposite),
{
    let a: Single = dm_to_deg(field_f32(line, idx));
    if field_char(line, idx + 1) == opposite {
        a.negate()
    } else {
        a
    }
}

/// Radians in a degree.
pub open spec fn rad_per_deg() -> Single {
    (Single { bits: PI_BITS }) / Single::of_int(180)
}

fn radians_per_degree() -> (r: Single)
    ensures
        r == rad_per_deg(),
{
    Single::from_bits(PI_BITS) / Single::from_i32(180)
}

/// What a line tells, where `last_alt` was the last altitude sent: sentences with
/// velocity have none of their own.
pub open spec fn sentence(s: Seq<u8>, last_alt: Single) -> Sentence {
    if !(is_kind(s, gga()) || is_kind(s, rmc())) || !checksum_holds(s) {
        Sentence::Ignored
    } else if is_kind(s, gga()) {
        if number_in(s, 6).less(Single::of_int(1)) {
            Sentence::NoFix
        } else {
            Sentence::Position(
                Fix {
                    lat: angle_in(s, 2, 0x53),
                    lon: angle_in(s, 4, 0x57),
                    alt: number_in(s, 9),
                    doppler: None,
                },
            )
        }
    } else if letter(s, 2) != 0x41 {
        Sentence::NoFix
    } else {
        Sentence::Motion(
            Fix {
                lat: angle_in(s, 3, 0x53),
                lon: angle_in(s, 5, 0x57),
                alt: last_alt,
                doppler: Some(
                    Doppler {
                        speed: number_in(s, 7) * Single::of_ratio(514444, 1000000),
                        course: number_in(s, 8) * rad_per_deg(),
                    },
                ),
            },
        )
    }
}

/// Reads one line.
pub fn parse_sentence(line: &[u8], last_alt: Single) -> (r: Sentence)
    ensures
        r == sentence(line@, last_alt),
{
    let is_gga: bool = has_kind(line, 0x47, 0x47, 0x41);
    let is_rmc: bool = has_kind(line, 0x52, 0x4D, 0x43);
    if !is_gga && !is_rmc {
        return Sentence::Ignored;
    }
    if !nmea_checksum_ok(line) {
        return Sentence::Ignored;
    }
    if is_gga {
        if field_f32(line, 6) < Single::from_i32(1) {
            return Sentence::NoFix;
        }
        Sentence::Position(
            Fix {
                lat: angle_field(line, 2, 0x53),
                lon: angle_field(line, 4, 0x57),
                alt: field_f32(line, 9),
                doppler: None,
            },
        )
    } else {
        if field_char(line, 2) != 0x41 {
            return Sentence::NoFix;
        }
        Sentence::Motion(
            Fix {
                lat: angle_field(line, 3, 0x53),
                lon: angle_field(line, 5, 0x57),
                alt: last_alt,
                doppler: Some(
                    Doppler {
                        speed: field_f32(line, 7) * Single::ratio(514444, 1000000),
                        course: field_f32(line, 8) * radians_per_degree(),
                    },
                ),
            },
        )
    }
}

/// The pending bytes, the last altitude sent, and the last fix of this batch.
pub struct Reading {
    pub pending: Pending,
    pub last_alt: Single,
    pub last: Option<Fix>,
}

impl Reading {
    /// After one byte more.
    pub open spec fn next(self, b: u8) -> Reading {
        let pending = self.pending.after(b);
        if b != 0x0A {
            Reading { pending, ..self }
        } else {
            match sentence(self.pending.completed(), self.last_alt) {
                Sentence::Ignored | Sentence::NoFix => Reading { pending, ..self },
                Sentence::Position(f) => Reading { pending, last_alt: f.alt, last: Some(f) },
                Sentence::Motion(f) => Reading { pending, last: Some(f), ..self },
            }
        }
    }

    /// After the first `n` bytes of a batch.
    pub open spec fn after(self, bytes: Seq<u8>, n: nat) -> Reading
        decreases n,
    {
        if n == 0 {
            self
        } else {
            self.after(bytes, (n - 1) as nat).next(bytes[n - 1])
        }
    }
}

/// Where positions count from.
#[derive(Clone, Copy, Debug, PartialEq)]
pub struct Origin {
    pub lat: Single,
    pub lon: Single,
    pub alt: Single,
}

/// The receiver: the line being collected, the last altitude and the origin.
pub struct GpsUblox {
    line: NmeaLine,
    last_alt: Single,
    origin: Option<Origin>,
}

/// The origin with which `fix` is placed: the first fix above the sea where there is
/// none yet.
pub open spec fn origin_with(origin: Option<Origin>, fix: Fix) -> Option<Origin> {
    match origin {
        Some(o) => Some(o),
        None => if fix.alt.less_eq(Single::of_int(0)) {
            None
        } else {
            Some(Origin { lat: fix.lat, lon: fix.lon, alt: fix.alt })
        },
    }
}

impl GpsUblox {
    pub closed spec fn pending(&self) -> Pending {
        self.line@
    }

    pub closed spec fn altitude(&self) -> Single {
        self.last_alt
    }

    pub closed spec fn home(&self) -> Option<Origin> {
        self.origin
    }

    pub fn new() -> (r: GpsUblox)
        ensures
            r.pending() == Pending::none(),
            r.altitude() == Single::of_int(0),
            r.home() is None,
    {
        GpsUblox { line: NmeaLine::new(), last_alt: Single::from_i32(0), origin: None }
    }

    /// Reads a batch of bytes, and returns the last fix of it.
    pub fn drain(&mut self, bytes: &[u8]) -> (r: Option<Fix>)
        ensures
            ({
                let end = (Reading {
                    pending: old(self).pending(),
                    last_alt: old(self).altitude(),
                    last: None,
                }).after(bytes@, bytes@.len());
                &&& final(self).pending() == end.pending
                &&& final(self).altitude() == end.last_alt
                &&& r == end.last
            }),
            final(self).home() == old(self).home(),
    {
        let mut last: Option<Fix> = None;
        let ghost first = Reading {
            pending: old(self).pending(),
            last_alt: old(self).altitude(),
            last: None,
        };
        let mut i: usize = 0;
        while i < bytes.len()
            invariant
                i <= bytes@.len(),
                first.after(bytes@, i as nat) == (Reading {
                    pending: self.pending(),
                    last_alt: self.altitude(),
                    last,
                }),
                self.home() == old(self).home(),
            decreases bytes@.len() - i,
        {
            if let Some(n) = self.line.push(bytes[i]) {
                match parse_sentence(self.line.line(n), self.last_alt) {
                    Sentence::Ignored | Sentence::NoFix => {},
                    Sentence::Position(f) => {
                        self.last_alt = f.alt;
                        last = Some(f);
                    },
                    Sentence::Motion(f) => {
                        last = Some(f);
                    },
                }
            }
            i += 1;
        }
        last
    }

    /// The origin to place `fix` with; the first fix above the sea sets it.
    pub fn place(&mut self, fix: &Fix) -> (r: Option<Origin>)
        ensures
            r == origin_with(old(self).home(), *fix),
            final(self).home() == r,
            final(self).pending() == old(self).pending(),
            final(self).altitude() == old(self).altitude(),
    {
        if self.origin.is_none() {
            if fix.alt <= Single::from_i32(0) {
                return None;
            }
            self.origin = Some(Origin { lat: fix.lat, lon: fix.lon, alt: fix.alt });
        }
        self.origin
    }

    /// Whether there is an origin.
    pub fn healthy(&self) -> (r: bool)
        ensures
            r == self.home() is Some,
    {
        self.origin.is_some()
    }
}

impl Origin {
    /// The latitude of the origin in radians.
    pub fn lat_rad(&self) -> (r: Single)
        ensures
            r == self.lat * rad_per_deg(),
    {
        self.lat * radians_per_degree()
    }

    pub open spec fn offset(self, fix: Fix, cos_lat: Single) -> Seq<Meter> {
        let radius = Single::of_int(6_378_137);
        seq![
            Meter((fix.lat - self.lat) * rad_per_deg() * radius),
            Meter((fix.lon - self.lon) * rad_per_deg() * radius * cos_lat),
            Meter((fix.alt - self.alt).negated()),
        ]
    }

    /// Where `fix` is from the origin, north, east and down, with the cosine of the
    /// origin's latitude and the velocity where it was measured.
    pub fn ned(&self, fix: &Fix, cos_lat: Single, vel: Option<[MeterPerSecond; 3]>) -> (r:
        PosSample)
        ensures
            r.pos@ == self.offset(*fix, cos_lat),
            r.vel == vel,
    {
        let radius: Single = Single::from_i32(6_378_137);
        let d_lat: Single = (fix.lat - self.lat) * radians_per_degree();
        let d_lon: Single = (fix.lon - self.lon) * radians_per_degree();
        let n: Single = d_lat * radius;
        let e: Single = d_lon * radius * cos_lat;
        let d: Single = (fix.alt - self.alt).negate();
        let pos: [Meter; 3] = [Meter(n), Meter(e), Meter(d)];
        assert(pos@ =~= self.offset(*fix, cos_lat));
        match vel {
            Some(v) => PosSample::with_vel(pos, v),
            None => PosSample::pos_only(pos),
        }
    }
}

impl Doppler {
    /// The velocity, north, east and down, with the sine and the cosine of the course.
    pub open spec fn velocity(self, sin: Single, cos: Single) -> Seq<MeterPerSecond> {
        seq![
            MeterPerSecond(self.speed * cos),
            MeterPerSecond(self.speed * sin),
            MeterPerSecond(Single::of_int(0)),
        ]
    }

    /// The velocity to the north and to the east, with the sine and the cosine of
    /// the course; nothing is known of the vertical.
    pub fn ned(&self, sin: Single, cos: Single) -> (r: [MeterPerSecond; 3])
        ensures
            r@ == self.velocity(sin, cos),
    {
        let r: [MeterPerSecond; 3] = [
            MeterPerSecond(self.speed * cos),
            MeterPerSecond(self.speed * sin),
            MeterPerSecond(Single::from_i32(0)),
        ];
        assert(r@ =~= seq![r[0], r[1], r[2]]);
        r
    }
}

/// The origin once set stays.
pub proof fn law_origin_stays(origin: Origin, fix: Fix)
    ensures
        origin_with(Some(origin), fix) == Some(origin),
{
}

/// Reading bytes in two batches collects lines as reading them in one does.
pub proof fn law_batches_join(r: Reading, a: Seq<u8>, b: Seq<u8>)
    ensures
        r.after(a + b, (a.len() + b.len()) as nat) == r.after(a, a.len()).after(b, b.len()),
    decreases b.len(),
{
    if b.len() == 0 {
        assert(a + b =~= a);
    } else {
        let c = b.drop_last();
        law_batches_join(r, a, c);
        let n = (a.len() + b.len()) as nat;
        lemma_after_prefix(r, a + b, a + c, (n - 1) as nat);
        lemma_after_prefix(r.after(a, a.len()), b, c, c.len());
        assert((a + b)[n - 1] == b[b.len() - 1]);
    }
}

proof fn lemma_after_prefix(r: Reading, s: Seq<u8>, t: Seq<u8>, n: nat)
    requires
        n <= s.len(),
        n <= t.len(),
        forall|i: int| 0 <= i < n ==> #[trigger] s[i] == t[i],
    ensures
        r.after(s, n) == r.after(t, n),
    decreases n,
{
    if n > 0 {
        lemma_after_prefix(r, s, t, (n - 1) as nat);
        assert(s[n - 1] == t[n - 1]);
    }
}

/// A line never grows beyond its room.
pub proof fn law_line_fits(pending: Pending, b: u8)
    requires
        pending.text.len() <= LINE_LEN,
    ensures
        pending.after(b).text.len() <= LINE_LEN,
{
}

/// No byte of a line that was too long is reported, and the next line starts anew.
pub proof fn law_long_line_is_discarded(pending: Pending, b: u8)
    requires
        pending.lost,
    ensures
        pending.completed() == Seq::<u8>::empty(),
        b != 0x0A ==> pending.after(b).lost,
        pending.after(0x0A) == Pending::none(),
{
}

/// A sentence without a fix leaves the last fix of the batch.
pub proof fn law_last_valid_fix_stays(r: Reading, b: u8)
    requires
        b == 0x0A ==> sentence(r.pending.completed(), r.last_alt) is NoFix,
    ensures
        r.next(b).last == r.last,
{
}

/// The speeds at which the receiver may talk.
pub const BAUD_LOW: u32 = 9600;

pub const BAUD_MIDDLE: u32 = 38400;

pub const BAUD_HIGH: u32 = 57600;

/// How long each speed is tried, in milliseconds.
pub const PROBE_MS: u32 = 300;

/// How long to wait between reads, in milliseconds.
pub const PROBE_STEP_MS: u32 = 10;

/// What to do next while the speed is searched.
#[derive(Clone, Copy, Debug, PartialEq, Eq, Structural)]
pub enum ProbeAction {
    /// Set this speed, then read.
    SetBaud(u32),
    /// Wait one step, then read.
    Wait,
    /// The speed is found; it stays as set.
    Locked,
    /// No speed worked: set the lowest and go on.
    FallBack(u32),
}

/// The search for the speed at which the receiver talks.
pub struct BaudSearch {
    line: NmeaLine,
    candidate: usize,
    waited: u32,
}

/// The speeds in the order in which they are tried.
pub open spec fn baud_of(candidate: int) -> u32 {
    if candidate == 0 {
        BAUD_LOW
    } else if candidate == 1 {
        BAUD_MIDDLE
    } else {
        BAUD_HIGH
    }
}

/// Whether a batch completes a line with position and a good checksum.
pub open spec fn finds_position(pending: Pending, bytes: Seq<u8>, n: nat) -> bool
    decreases n,
{
    n > 0 && (finds_position(pending, bytes, (n - 1) as nat) || ({
        let before = pending_through(pending, bytes, (n - 1) as nat);
        bytes[n - 1] == 0x0A && is_kind(before.completed(), gga()) && checksum_holds(
            before.completed(),
        )
    }))
}

/// What is pending after the first `n` bytes of a batch.
pub open spec fn pending_through(pending: Pending, bytes: Seq<u8>, n: nat) -> Pending
    decreases n,
{
    if n == 0 {
        pending
    } else {
        pending_through(pending, bytes, (n - 1) as nat).after(bytes[n - 1])
    }
}

impl BaudSearch {
    pub closed spec fn pending(&self) -> Pending {
        self.line@
    }

    /// Which speed is being tried.
    pub closed spec fn trying(&self) -> int {
        self.candidate as int
    }

    /// How long it has been tried.
    pub closed spec fn spent(&self) -> int {
        self.waited as int
    }

    /// Starts with the lowest speed.
    pub fn new() -> (r: (BaudSearch, ProbeAction))
        ensures
            r.0.pending() == Pending::none(),
            r.0.trying() == 0,
            r.0.spent() == 0,
            r.1 == ProbeAction::SetBaud(BAUD_LOW),
    {
        (
            BaudSearch { line: NmeaLine::new(), candidate: 0, waited: 0 },
            ProbeAction::SetBaud(BAUD_LOW),
        )
    }

    /// Takes in what was read since the last action.
    pub fn advance(&mut self, bytes: &[u8]) -> (r: ProbeAction)
        ensures
            finds_position(old(self).pending(), bytes@, bytes@.len()) <==> r is Locked,
            !(r is Locked) ==> {
                let over = old(self).spent() + PROBE_STEP_MS >= PROBE_MS;
                let last = old(self).trying() >= 2;
                &&& r == if !over {
                    ProbeAction::Wait
                } else if last {
                    ProbeAction::FallBack(BAUD_LOW)
                } else {
                    ProbeAction::SetBaud(baud_of(old(self).trying() + 1))
                }
                &&& !over ==> {
                    &&& final(self).trying() == old(self).trying()
                    &&& final(self).spent() == old(self).spent() + PROBE_STEP_MS
                    &&& final(self).pending() == pending_through(
                        old(self).pending(),
                        bytes@,
                        bytes@.len(),
                    )
                }
                &&& over && !last ==> {
                    &&& final(self).trying() == old(self).trying() + 1
                    &&& final(self).spent() == 0
                    &&& final(self).pending() == Pending::none()
                }
            },
    {
        let mut i: usize = 0;
        while i < bytes.len()
            invariant
                i <= bytes@.len(),
                !finds_position(old(self).pending(), bytes@, i as nat),
                self.pending() == pending_through(old(self).pending(), bytes@, i as nat),
                self.candidate == old(self).candidate,
                self.waited == old(self).waited,
            decreases bytes@.len() - i,
        {
            if let Some(n) = self.line.push(bytes[i]) {
                let l: &[u8] = self.line.line(n);
                if has_kind(l, 0x47, 0x47, 0x41) && nmea_checksum_ok(l) {
                    proof {
                        lemma_found_stays(
                            old(self).pending(),
                            bytes@,
                            (i + 1) as nat,
                            bytes@.len(),
                        );
                    }
                    return ProbeAction::Locked;
                }
            }
            i += 1;
        }
        if self.waited < PROBE_MS - PROBE_STEP_MS {
            self.waited += PROBE_STEP_MS;
            return ProbeAction::Wait;
        }
        if self.candidate < 2 {
            self.candidate += 1;
            self.waited = 0;
            self.line = NmeaLine::new();
            return ProbeAction::SetBaud(
                if self.candidate == 1 {
                    BAUD_MIDDLE
                } else {
                    BAUD_HIGH
                },
            );
        }
        ProbeAction::FallBack(BAUD_LOW)
    }
}

proof fn lemma_found_stays(pending: Pending, bytes: Seq<u8>, n: nat, m: nat)
    requires
        n <= m,
        finds_position(pending, bytes, n),
    ensures
        finds_position(pending, bytes, m),
    decreases m - n,
{
    if n < m {
        lemma_found_stays(pending, bytes, n, (m - 1) as nat);
    }
}

/// A degree is at least 2^-8 radians.
proof fn lemma_rad_per_deg()
    ensures
        crate::single::signs::beyond(true, rad_per_deg(), 8),
        crate::single::laws::within(rad_per_deg(), 3),
{
    let pi = Single { bits: PI_BITS };
    let d = Single::of_int(180);
    let z = Single::of_int(0);
    vstd::arithmetic::power2::lemma2_to64();
    crate::single::arith::lemma_small_ints();
    crate::single::laws::lemma_one_magnitude();
    crate::single::laws::law_integer_within(180, 8);
    crate::single::exact::law_integer_worth(180);
    crate::single::exact::law_integer_worth(1);
    crate::single::exact::law_integer_worth(0);
    crate::single::exact::law_worth_order(z, d, 0, 180, 0);
    crate::single::laws::lemma_field_order(Single::of_int(1).field(), pi.field());
    assert(crate::single::signs::beyond(true, pi, 0));
    assert(crate::single::laws::within(pi, 3)) by {
        crate::single::exact::law_integer_worth(8);
        vstd::arithmetic::power2::lemma_pow2_adds(3, 149);
        lemma_eight();
        crate::single::laws::lemma_field_order(pi.field(), Single::of_int(8).field());
    }
    crate::single::signs::law_quotient_beyond(true, pi, d, 0, 8);
    let p = vstd::arithmetic::power2::pow2(149);
    vstd::arithmetic::power2::lemma_pow2_pos(149);
    assert(180 * p >= p);
    assert(crate::single::signs::beyond(true, d, 0));
    crate::single::signs::law_quotient_within(pi, d, 3, 0);
}

proof fn lemma_eight()
    ensures
        Single::of_int(8).bits == 0x4100_0000,
{
    reveal(Single::of_int);
    vstd::arithmetic::power2::lemma2_to64();
    let p = vstd::arithmetic::power2::pow2(149);
    vstd::arithmetic::power2::lemma_pow2_adds(3, 149);
    vstd::arithmetic::power2::lemma_pow2_adds(23, 129);
    crate::single::rounding::lemma_field_value(129, 0x80_0000);
    crate::single::rounding::lemma_nearest_exact(0x4100_0000);
    assert(8 * p == vstd::arithmetic::power2::pow2(152));
}

/// A fix north of the origin is placed to the north, one east of it to the east and one above
/// it upwards, which is not down, and each by a share of the difference at least.
pub proof fn law_fix_is_placed_its_way(
    o: Origin,
    fix: Fix,
    cos_lat: Single,
    up: bool,
    a: nat,
    b: nat,
)
    requires
        crate::single::laws::within(o.lat, 20) && crate::single::laws::within(fix.lat, 20),
        crate::single::laws::within(o.lon, 20) && crate::single::laws::within(fix.lon, 20),
        crate::single::laws::within(o.alt, 20) && crate::single::laws::within(fix.alt, 20),
        crate::single::laws::within(cos_lat, 0) && crate::single::signs::toward(true, cos_lat),
        a + b + 8 <= 149,
    ensures
        ({
            let p = o.offset(fix, cos_lat);
            &&& crate::single::signs::ahead(up, o.lat, fix.lat) ==> crate::single::signs::toward(
                up,
                p[0].0,
            )
            &&& crate::single::signs::ahead(up, o.lon, fix.lon) ==> crate::single::signs::toward(
                up,
                p[1].0,
            )
            &&& crate::single::signs::ahead(up, o.alt, fix.alt) ==> crate::single::signs::toward(
                !up,
                p[2].0,
            )
            &&& crate::single::signs::beyond(up, fix.lat - o.lat, a)
                ==> crate::single::signs::beyond(up, p[0].0, a + 8)
            &&& crate::single::signs::beyond(up, fix.lon - o.lon, a)
                && crate::single::signs::beyond(true, cos_lat, b)
                ==> crate::single::signs::beyond(up, p[1].0, a + b + 8)
            &&& crate::single::signs::beyond(up, fix.alt - o.alt, a)
                ==> crate::single::signs::beyond(!up, p[2].0, a)
        }),
{
    let radius = Single::of_int(6_378_137);
    let k = rad_per_deg();
    let z = Single::of_int(0);
    lemma_rad_per_deg();
    vstd::arithmetic::power2::lemma2_to64();
    crate::single::arith::lemma_small_ints();
    crate::single::laws::law_integer_within(6_378_137, 23);
    crate::single::exact::law_integer_worth(6_378_137);
    crate::single::exact::law_integer_worth(0);
    crate::single::exact::law_worth_order(z, radius, 0, 6_378_137, 0);
    let p = vstd::arithmetic::power2::pow2(149);
    vstd::arithmetic::power2::lemma_pow2_pos(149);
    assert(6_378_137 * p >= p);
    assert(crate::single::signs::beyond(true, radius, 0));
    crate::single::laws::lemma_within_is_finite(k, 3);
    crate::single::signs::law_beyond_is_toward(true, k, 8);
    crate::single::laws::lemma_within_is_finite(cos_lat, 0);
    crate::single::laws::lemma_within_is_finite(o.lat, 20);
    crate::single::laws::lemma_within_is_finite(o.lon, 20);
    crate::single::laws::lemma_within_is_finite(o.alt, 20);
    crate::single::laws::lemma_within_is_finite(fix.lat, 20);
    crate::single::laws::lemma_within_is_finite(fix.lon, 20);
    crate::single::laws::lemma_within_is_finite(fix.alt, 20);
    let (x, y, h) = (fix.lat - o.lat, fix.lon - o.lon, fix.alt - o.alt);
    crate::single::signs::law_difference_within(fix.lat, o.lat, 20);
    crate::single::signs::law_difference_within(fix.lon, o.lon, 20);
    crate::single::signs::law_difference_within(fix.alt, o.alt, 20);
    crate::single::laws::law_product_within(x, k, 21, 3);
    crate::single::laws::law_product_within(y, k, 21, 3);
    crate::single::laws::law_product_within(x * k, radius, 24, 23);
    crate::single::laws::law_product_within(y * k, radius, 24, 23);
    crate::single::signs::lemma_negated(h);
    if crate::single::signs::ahead(up, o.lat, fix.lat) {
        crate::single::signs::law_difference_points(up, o.lat, fix.lat);
        crate::single::signs::law_product_points(up, x, k);
        crate::single::signs::law_product_points(up, x * k, radius);
    }
    if crate::single::signs::ahead(up, o.lon, fix.lon) {
        crate::single::signs::law_difference_points(up, o.lon, fix.lon);
        crate::single::signs::law_product_points(up, y, k);
        crate::single::signs::law_product_points(up, y * k, radius);
        crate::single::signs::law_product_points(up, y * k * radius, cos_lat);
    }
    if crate::single::signs::ahead(up, o.alt, fix.alt) {
        crate::single::signs::law_difference_points(up, o.alt, fix.alt);
        crate::single::signs::law_negated_points_back(up, h);
    }
    if crate::single::signs::beyond(up, x, a) {
        crate::single::signs::law_product_beyond(up, x, k, a, 8);
        crate::single::signs::law_product_beyond(up, x * k, radius, a + 8, 0);
    }
    if crate::single::signs::beyond(up, y, a) && crate::single::signs::beyond(true, cos_lat, b) {
        crate::single::signs::law_product_beyond(up, y, k, a, 8);
        crate::single::signs::law_product_beyond(up, y * k, radius, a + 8, 0);
        crate::single::signs::law_product_beyond(up, y * k * radius, cos_lat, a + 8, b);
    }
}

/// Degrees and minutes, written together, are degrees and sixtieths; here for quarters of a
/// degree, which leave no rounding.
pub proof fn law_minutes_are_sixtieths(dm: Single, d: int, k: int)
    requires
        0 <= d <= 360,
        0 <= k < 4,
        crate::single::exact::worth(dm, 100 * d + 15 * k, 0),
    ensures
        crate::single::exact::worth(degrees_of(dm), 4 * d + k, 2),
{
    let n = 100 * d + 15 * k;
    let sixty = Single::of_int(60);
    crate::single::exact::law_integer_worth(d);
    crate::single::exact::law_integer_worth(100);
    crate::single::exact::law_integer_worth(60);
    lemma_saturated_whole(dm, n);
    assert(n / 100 == d);
    crate::single::exact::law_worth_product(
        Single::of_int(d),
        Single::of_int(100),
        d,
        100,
        0,
        0,
    );
    let min = dm - Single::of_int(d) * Single::of_int(100);
    crate::single::exact::law_worth_difference(
        dm,
        Single::of_int(d) * Single::of_int(100),
        n,
        d * 100,
        0,
    );
    crate::single::exact::law_worth_finer(min, 15 * k, 0);
    crate::single::exact::law_worth_finer(min, 2 * (15 * k), 1);
    crate::single::exact::law_worth_quotient(min, sixty, k, 60, 2, 0);
    crate::single::exact::law_worth_finer(Single::of_int(d), d, 0);
    crate::single::exact::law_worth_finer(Single::of_int(d), 2 * d, 1);
    crate::single::exact::law_worth_sum(Single::of_int(d), min / sixty, 4 * d, k, 2);
}

/// An integer of ordinary size is itself when taken as an integer.
proof fn lemma_saturated_whole(x: Single, n: int)
    requires
        crate::single::exact::worth(x, n, 0),
        0 <= n <= 0x10_0000,
    ensures
        x.saturated(i32::MIN as int, i32::MAX as int) == n,
{
    let p = vstd::arithmetic::power2::pow2(149) as int;
    vstd::arithmetic::power2::lemma_pow2_pos(149);
    assert((n * p) / p == n) by (nonlinear_arith)
        requires
            p > 0,
    ;
    assert(n * p >= 0) by (nonlinear_arith)
        requires
            n >= 0,
            p > 0,
    ;
}

/// A course is counted from north over east: at its cosine and sine the velocity points north
/// and east, with the speed for its length; here for all integers that leave no rounding.
pub proof fn law_course_leads_from_north(d: Doppler, sin: Single, cos: Single, v: int, s: int, k: int)
    requires
        crate::single::exact::worth(d.speed, v, 0) && crate::vehicle::small(v, 1024),
        crate::single::exact::worth(sin, s, 0) && crate::vehicle::small(s, 1024),
        crate::single::exact::worth(cos, k, 0) && crate::vehicle::small(k, 1024),
    ensures
        ({
            let (n, e) = (v * k, v * s);
            &&& crate::single::exact::worth(d.velocity(sin, cos)[0].0, n, 0)
            &&& crate::single::exact::worth(d.velocity(sin, cos)[1].0, e, 0)
            &&& n * s == e * k
            &&& n * n + e * e == v * v * (s * s + k * k)
        }),
{
    crate::rotation_laws::lemma_whole_product(d.speed, cos, v, k, 1024, 1024);
    crate::rotation_laws::lemma_whole_product(d.speed, sin, v, s, 1024, 1024);
    let (n, e) = (v * k, v * s);
    assert(n * s == e * k) by (nonlinear_arith)
        requires
            n == v * k,
            e == v * s,
    ;
    assert(n * n == v * v * (k * k)) by (nonlinear_arith)
        requires
            n == v * k,
    ;
    assert(e * e == v * v * (s * s)) by (nonlinear_arith)
        requires
            e == v * s,
    ;
    let w = v * v;
    let (a, b) = (s * s, k * k);
    assert(w * (a + b) == w * a + w * b) by (nonlinear_arith);
}

/// A digit before the point counts the digits before it in tens; a point changes no number.
pub proof fn law_digits_count_in_tens(d: Digits, b: u8, m: int)
    requires
        crate::single::exact::worth(d.whole, m, 0),
        0 <= m <= 0x10_0000,
        is_numeric(b),
        !d.after_point,
    ensures
        b != 0x2E ==> crate::single::exact::worth(d.next(b).whole, 10 * m + (b - 0x30), 0)
            && d.next(b).part == d.part && !d.next(b).after_point,
        b == 0x2E ==> d.next(b).whole == d.whole && d.next(b).part == d.part && d.next(
            b,
        ).after_point,
{
    let k = (b - 0x30) as int;
    crate::single::exact::law_integer_worth(10);
    if b != 0x2E {
        crate::single::exact::law_integer_worth(k);
        crate::single::exact::law_worth_product(d.whole, Single::of_int(10), m, 10, 0, 0);
        crate::single::exact::law_worth_sum(
            d.whole * Single::of_int(10),
            Single::of_int(k),
            m * 10,
            k,
            0,
        );
    }
}

} // verus!

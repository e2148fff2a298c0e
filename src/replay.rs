//! Content hashes of rendered frames, and the record and replay protocol that
//! checks a run against an earlier one.
use vstd::prelude::*;

use std::collections::VecDeque;

verus! {

/// FNV-1a over 32 bits, byte by byte.
pub open spec fn fnv1a(b: Seq<u8>) -> u32
    decreases b.len(),
{
    if b.len() == 0 {
        0x811c9dc5u32
    } else {
        (fnv1a(b.drop_last()) ^ (b.last() as u32)).wrapping_mul(0x0100_0193u32)
    }
}

/// The four-byte digest of the content of one rendered frame, most
/// significant byte first.
#[derive(Clone, Copy, Debug, PartialEq, Eq, Structural)]
pub struct Hash(pub u32);

/// The hash of a frame with these bytes.
pub open spec fn frame_hash(bytes: Seq<u8>) -> Hash {
    Hash(fnv1a(bytes))
}

impl Hash {
    /// Hashes the bytes of a frame.
    pub fn of(bytes: &[u8]) -> (h: Hash)
        ensures
            h == frame_hash(bytes@),
    {
        let mut acc: u32 = 0x811c9dc5u32;
        let n = bytes.len();
        let mut i: usize = 0;
        while i < n
            invariant
                n == bytes@.len(),
                i <= n,
                acc == fnv1a(bytes@.take(i as int)),
            decreases n - i,
        {
            proof {
                assert(bytes@.take(i + 1).drop_last() =~= bytes@.take(i as int));
            }
            acc = (acc ^ (bytes[i] as u32)).wrapping_mul(0x0100_0193u32);
            i = i + 1;
        }
        proof {
            assert(bytes@.take(n as int) =~= bytes@);
        }
        Hash(acc)
    }
}

/// The outcome of checking one rendered frame against the recorded run.
#[derive(Clone, Copy, Debug, PartialEq, Eq, Structural)]
pub enum VerifyResult {
    /// The frame has the hash that was expected next.
    Okay,
    /// The frame is unchanged since the last check and was not checked again.
    Stale,
    /// The frame has another hash than expected: the actual one, then the
    /// expected one.
    Failure(Hash, Hash),
    /// The recorded run has no more hashes.
    EOF,
}

/// The state of the protocol: the queue of expected hashes and the hash of
/// the frame checked last.
pub struct ReplayView {
    pub expected: Seq<Hash>,
    pub last_verified: Option<Hash>,
}

/// Recording a hash appends it, unless it equals the most recent one.
pub open spec fn record_spec(s: ReplayView, h: Hash) -> ReplayView {
    if s.expected.len() > 0 && s.expected.last() == h {
        s
    } else {
        ReplayView { expected: s.expected.push(h), last_verified: s.last_verified }
    }
}

/// Checking a hash: the same hash as last time is stale and changes nothing;
/// otherwise the head of the queue is taken and compared, and the hash
/// becomes the last one checked.
pub open spec fn verify_spec(s: ReplayView, h: Hash) -> (ReplayView, VerifyResult) {
    if s.last_verified == Some(h) {
        (s, VerifyResult::Stale)
    } else if s.expected.len() == 0 {
        (ReplayView { expected: s.expected, last_verified: Some(h) }, VerifyResult::EOF)
    } else {
        let e = s.expected[0];
        (
            ReplayView { expected: s.expected.drop_first(), last_verified: Some(h) },
            if e == h {
                VerifyResult::Okay
            } else {
                VerifyResult::Failure(h, e)
            },
        )
    }
}

/// Records the hashes of a run, or checks a run against recorded hashes.
pub struct ReplayVerifier {
    expected: VecDeque<Hash>,
    last_verified: Option<Hash>,
}

impl View for ReplayVerifier {
    type V = ReplayView;

    closed spec fn view(&self) -> ReplayView {
        ReplayView { expected: self.expected@, last_verified: self.last_verified }
    }
}

impl ReplayVerifier {
    /// No expected hashes and nothing checked yet.
    pub fn new() -> (r: ReplayVerifier)
        ensures
            r@.expected == Seq::<Hash>::empty(),
            r@.last_verified is None,
    {
        ReplayVerifier { expected: VecDeque::new(), last_verified: None }
    }

    /// Starts a replay against the given recorded hashes, oldest first.
    pub fn from_hashes(hashes: Vec<Hash>) -> (r: ReplayVerifier)
        ensures
            r@.expected == hashes@,
            r@.last_verified is None,
    {
        let mut expected: VecDeque<Hash> = VecDeque::new();
        let n = hashes.len();
        let mut i: usize = 0;
        while i < n
            invariant
                n == hashes@.len(),
                i <= n,
                expected@ == hashes@.take(i as int),
            decreases n - i,
        {
            expected.push_back(hashes[i]);
            proof {
                assert(hashes@.take(i + 1) =~= hashes@.take(i as int).push(hashes@[i as int]));
            }
            i = i + 1;
        }
        proof {
            assert(hashes@.take(n as int) =~= hashes@);
        }
        ReplayVerifier { expected, last_verified: None }
    }

    /// The hashes still expected, oldest first.
    pub fn expected(&self) -> (r: Vec<Hash>)
        ensures
            r@ == self@.expected,
    {
        let mut out: Vec<Hash> = Vec::new();
        let n = self.expected.len();
        let mut i: usize = 0;
        while i < n
            invariant
                n == self@.expected.len(),
                i <= n,
                out@ == self@.expected.take(i as int),
            decreases n - i,
        {
            out.push(self.expected[i]);
            proof {
                assert(self@.expected.take(i + 1) =~= self@.expected.take(i as int).push(
                    self@.expected[i as int],
                ));
            }
            i = i + 1;
        }
        proof {
            assert(self@.expected.take(n as int) =~= self@.expected);
        }
        out
    }

    /// The hash of the frame checked last, if any.
    pub fn last_verified(&self) -> (r: Option<Hash>)
        ensures
            r == self@.last_verified,
    {
        self.last_verified
    }

    /// Records a frame hash; tells whether it was appended, which it is
    /// unless it repeats the most recent one.
    pub fn record_hash(&mut self, h: Hash) -> (appended: bool)
        ensures
            final(self)@ == record_spec(old(self)@, h),
            appended == (final(self)@.expected.len() == old(self)@.expected.len() + 1),
    {
        let n = self.expected.len();
        if n > 0 && self.expected[n - 1] == h {
            false
        } else {
            self.expected.push_back(h);
            true
        }
    }

    /// Checks a frame hash against the head of the queue.
    pub fn verify_hash(&mut self, h: Hash) -> (r: VerifyResult)
        ensures
            (final(self)@, r) == verify_spec(old(self)@, h),
    {
        if self.last_verified == Some(h) {
            return VerifyResult::Stale;
        }
        let r = match self.expected.pop_front() {
            None => VerifyResult::EOF,
            Some(e) => {
                if e == h {
                    VerifyResult::Okay
                } else {
                    VerifyResult::Failure(h, e)
                }
            },
        };
        self.last_verified = Some(h);
        r
    }

    /// Hashes a rendered frame and records the hash.
    pub fn record_frame(&mut self, bytes: &[u8]) -> (appended: bool)
        ensures
            final(self)@ == record_spec(old(self)@, frame_hash(bytes@)),
            appended == (final(self)@.expected.len() == old(self)@.expected.len() + 1),
    {
        let h = Hash::of(bytes);
        self.record_hash(h)
    }

    /// Hashes a rendered frame and checks the hash.
    pub fn verify_frame(&mut self, bytes: &[u8]) -> (r: VerifyResult)
        ensures
            (final(self)@, r) == verify_spec(old(self)@, frame_hash(bytes@)),
    {
        let h = Hash::of(bytes);
        self.verify_hash(h)
    }
}

/// Recording the same frame twice in a row appends one hash only.
pub proof fn lemma_record_dedup(s: ReplayView, bytes: Seq<u8>)
    ensures
        record_spec(record_spec(s, frame_hash(bytes)), frame_hash(bytes)) == record_spec(
            s,
            frame_hash(bytes),
        ),
        record_spec(s, frame_hash(bytes)).expected.len() <= s.expected.len() + 1,
        record_spec(s, frame_hash(bytes)).expected.last() == frame_hash(bytes),
{
}

/// Why a hash could not be read from its text form. Each case holds the
/// text that was given.
#[derive(Debug, PartialEq, Eq)]
pub enum HashError {
    /// The text has an odd number of characters.
    OddLength(String),
    /// The text holds a character that is not a lowercase hex digit.
    InvalidCharacter(String, char),
    /// The text has another length than eight digits.
    WrongLength(String),
}

pub open spec fn is_hex_digit(c: char) -> bool {
    ('0' <= c && c <= '9') || ('a' <= c && c <= 'f')
}

pub open spec fn hex_value(c: char) -> nat {
    if '0' <= c && c <= '9' {
        (c as nat - '0' as nat) as nat
    } else {
        (c as nat - 'a' as nat + 10) as nat
    }
}

/// The lowercase hex digit for a value below sixteen.
pub open spec fn hex_char(d: nat) -> char {
    if d < 10 {
        ((d + '0' as nat) as u8) as char
    } else {
        ((d - 10 + 'a' as nat) as u8) as char
    }
}

/// The number that a string of hex digits writes, most significant first.
pub open spec fn hex_number(s: Seq<char>) -> nat
    decreases s.len(),
{
    if s.len() == 0 {
        0
    } else {
        hex_number(s.drop_last()) * 16 + hex_value(s.last())
    }
}

/// The `n` lowest hex digits of `v`, most significant first.
pub open spec fn hex_digits(v: nat, n: nat) -> Seq<char>
    decreases n,
{
    if n == 0 {
        Seq::empty()
    } else {
        hex_digits(v / 16, (n - 1) as nat).push(hex_char(v % 16))
    }
}

/// The text form of a hash: two lowercase hex digits per byte.
pub open spec fn hash_text(h: Hash) -> Seq<char> {
    hex_digits(h.0 as nat, 8)
}

fn digit_char(d: u32) -> (c: char)
    requires
        d < 16,
    ensures
        c == hex_char(d as nat),
{
    if d < 10 {
        ((d as u8) + 48u8) as char
    } else {
        ((d as u8) + 87u8) as char
    }
}

fn digit_value(c: char) -> (r: Option<u32>)
    ensures
        is_hex_digit(c) <==> r is Some,
        r is Some ==> r->0 == hex_value(c) && r->0 < 16,
{
    if '0' <= c && c <= '9' {
        Some((c as u32) - 48)
    } else if 'a' <= c && c <= 'f' {
        Some((c as u32) - 87)
    } else {
        None
    }
}

pub open spec fn all_hex(s: Seq<char>) -> bool {
    forall|i: int| 0 <= i < s.len() ==> is_hex_digit(#[trigger] s[i])
}

pub open spec fn pow16(n: nat) -> nat
    decreases n,
{
    if n == 0 {
        1
    } else {
        16 * pow16((n - 1) as nat)
    }
}

/// Relies on `String::push`: appends one character.
#[verifier::external_body]
fn push_char(s: &mut String, c: char)
    ensures
        final(s)@ == old(s)@.push(c),
{
    s.push(c)
}

fn push_hex_digits(out: &mut String, v: u32, n: u32)
    ensures
        final(out)@ == old(out)@ + hex_digits(v as nat, n as nat),
    decreases n,
{
    if n == 0 {
        assert(old(out)@ + hex_digits(v as nat, 0) =~= old(out)@);
        return;
    }
    push_hex_digits(out, v / 16, n - 1);
    let c = digit_char(v % 16);
    push_char(out, c);
    assert(old(out)@ + hex_digits(v as nat, n as nat) =~= old(out)@ + hex_digits(
        (v / 16) as nat,
        (n - 1) as nat,
    ) + seq![c]);
}

proof fn lemma_hex_number_bound(s: Seq<char>)
    requires
        all_hex(s),
    ensures
        hex_number(s) < pow16(s.len()),
    decreases s.len(),
{
    if s.len() > 0 {
        let t = s.drop_last();
        assert(all_hex(t)) by {
            assert forall|i: int| 0 <= i < t.len() implies is_hex_digit(#[trigger] t[i]) by {
                assert(t[i] == s[i]);
            }
        }
        lemma_hex_number_bound(t);
        assert(is_hex_digit(s[s.len() - 1]));
        let a = hex_number(t);
        let p = pow16(t.len());
        let d = hex_value(s.last());
        assert(a * 16 + d < 16 * p) by (nonlinear_arith)
            requires
                a < p,
                d < 16,
        ;
    }
}

impl Hash {
    /// The hash as lowercase hex digits, two per byte.
    pub fn to_hex(&self) -> (r: String)
        ensures
            r@ == hash_text(*self),
    {
        let mut out = String::new();
        push_hex_digits(&mut out, self.0, 8);
        assert(Seq::<char>::empty() + hex_digits(self.0 as nat, 8) =~= hex_digits(self.0 as nat, 8));
        out
    }

    /// Reads a hash from its text form. The checks come in this order: the
    /// number of characters must be even, every character a lowercase hex
    /// digit, and the digits exactly eight.
    pub fn from_hex(s: &str) -> (r: Result<Hash, HashError>)
        ensures
            match r {
                Ok(h) => s@.len() == 8 && all_hex(s@) && h.0 == hex_number(s@),
                Err(HashError::OddLength(t)) => s@.len() % 2 == 1 && t@ == s@,
                Err(HashError::InvalidCharacter(t, c)) => {
                    &&& s@.len() % 2 == 0
                    &&& t@ == s@
                    &&& exists|i: int|
                        0 <= i < s@.len() && s@[i] == c && !is_hex_digit(c) && all_hex(
                            #[trigger] s@.take(i),
                        )
                },
                Err(HashError::WrongLength(t)) => {
                    &&& s@.len() % 2 == 0
                    &&& all_hex(s@)
                    &&& s@.len() != 8
                    &&& t@ == s@
                },
            },
    {
        let n = s.unicode_len();
        if n % 2 != 0 {
            return Err(HashError::OddLength(s.to_owned()));
        }
        let mut i: usize = 0;
        while i < n
            invariant
                n == s@.len(),
                n % 2 == 0,
                i <= n,
                all_hex(s@.take(i as int)),
            decreases n - i,
        {
            let c = s.get_char(i);
            if digit_value(c).is_none() {
                assert(0 <= i < s@.len() && s@[i as int] == c && !is_hex_digit(c) && all_hex(
                    s@.take(i as int),
                ));
                let t = s.to_owned();
                return Err(HashError::InvalidCharacter(t, c));
            }
            proof {
                let t = s@.take(i + 1);
                assert forall|j: int| 0 <= j < t.len() implies is_hex_digit(#[trigger] t[j]) by {
                    if j < i {
                        assert(t[j] == s@.take(i as int)[j]);
                    }
                }
            }
            i = i + 1;
        }
        assert(s@.take(n as int) =~= s@);
        if n != 8 {
            return Err(HashError::WrongLength(s.to_owned()));
        }
        let mut acc: u32 = 0;
        let mut k: usize = 0;
        while k < 8
            invariant
                n == 8,
                s@.len() == 8,
                all_hex(s@),
                k <= 8,
                acc == hex_number(s@.take(k as int)),
            decreases 8 - k,
        {
            let c = s.get_char(k);
            let d = digit_value(c).unwrap();
            proof {
                let t = s@.take(k as int);
                assert(all_hex(t)) by {
                    assert forall|j: int| 0 <= j < t.len() implies is_hex_digit(#[trigger] t[j]) by {
                        assert(t[j] == s@[j]);
                    }
                }
                lemma_hex_number_bound(t);
                assert(pow16(7) == 0x1000_0000) by {
                    reveal_with_fuel(pow16, 8);
                }
                assert(pow16(k as nat) <= pow16(7)) by {
                    lemma_pow16_mono(k as nat, 7);
                }
                assert(s@.take(k + 1).drop_last() =~= t);
            }
            acc = acc * 16 + d;
            k = k + 1;
        }
        assert(s@.take(8) =~= s@);
        Ok(Hash(acc))
    }
}

proof fn lemma_pow16_mono(a: nat, b: nat)
    requires
        a <= b,
    ensures
        pow16(a) <= pow16(b),
    decreases b,
{
    if a < b {
        lemma_pow16_mono(a, (b - 1) as nat);
    }
}

proof fn lemma_hex_digits(v: nat, n: nat)
    ensures
        hex_digits(v, n).len() == n,
        all_hex(hex_digits(v, n)),
        hex_number(hex_digits(v, n)) == v % pow16(n),
    decreases n,
{
    if n > 0 {
        let m = (n - 1) as nat;
        let d = v % 16;
        lemma_hex_digits(v / 16, m);
        let s = hex_digits(v, n);
        assert(s.drop_last() == hex_digits(v / 16, m));
        assert(hex_value(hex_char(d)) == d && is_hex_digit(hex_char(d)));
        assert forall|i: int| 0 <= i < s.len() implies is_hex_digit(#[trigger] s[i]) by {
            if i < m {
                assert(s[i] == hex_digits(v / 16, m)[i]);
            }
        }
        assert(pow16(m) > 0) by {
            lemma_pow16_positive(m);
        }
        vstd::arithmetic::div_mod::lemma_mod_breakdown(v as int, 16, pow16(m) as int);
    }
}

proof fn lemma_pow16_positive(n: nat)
    ensures
        pow16(n) > 0,
    decreases n,
{
    if n > 0 {
        lemma_pow16_positive((n - 1) as nat);
    }
}

/// The text form of a hash reads back as the same hash: it is eight
/// lowercase hex digits whose number is the hash.
pub proof fn lemma_hash_text_round_trip(h: Hash)
    ensures
        hash_text(h).len() == 8,
        all_hex(hash_text(h)),
        hex_number(hash_text(h)) == h.0,
{
    lemma_hex_digits(h.0 as nat, 8);
    assert(pow16(8) == 0x1_0000_0000) by {
        reveal_with_fuel(pow16, 9);
    }
}

} // verus!

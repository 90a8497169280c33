use vstd::prelude::*;
use vstd::string::*;
use vstd::arithmetic::div_mod::lemma_mod_breakdown;
use std::collections::hash_map::RandomState;
use std::hash::BuildHasher;

verus! {

// ---------------------------------------------------------------------------
// Trusted items
// ---------------------------------------------------------------------------

/// `String::push` appends one character.
pub assume_specification[ std::string::String::push ](s: &mut std::string::String, ch: char)
    ensures
        final(s)@ == old(s)@.push(ch),
;

/// Unicode `Alphabetic` or numeric character: what `char::is_alphanumeric` decides.
pub uninterp spec fn is_alnum(c: char) -> bool;

/// Unicode `White_Space` character: what `char::is_whitespace` decides.
pub uninterp spec fn is_ws(c: char) -> bool;

/// Numeric character (general categories Nd, Nl, No): what `char::is_numeric` decides.
pub uninterp spec fn is_num(c: char) -> bool;

/// Relies on `char::is_alphanumeric`.
pub assume_specification[ char::is_alphanumeric ](c: char) -> (r: bool)
    ensures
        r == is_alnum(c),
;

/// Relies on `char::is_whitespace`.
pub assume_specification[ char::is_whitespace ](c: char) -> (r: bool)
    ensures
        r == is_ws(c),
;

/// Relies on `char::is_numeric`.
pub assume_specification[ char::is_numeric ](c: char) -> (r: bool)
    ensures
        r == is_num(c),
;

/// Relies on `RandomState::new`: a hash state with fresh random keys.
pub assume_specification[ std::collections::hash_map::RandomState::new ]() -> std::collections::hash_map::RandomState;

/// Relies on `BuildHasher::hash_one` of std's randomly keyed hasher: a
/// pseudo-random digest of `x`. Nothing is known of the value.
#[verifier::external_body]
fn hash_with(state: &RandomState, x: u64) -> u64 {
    state.hash_one(x)
}

/// Relies on `chrono::Utc::now` and `DateTime::timestamp_millis`: the current
/// time in milliseconds since the Unix epoch. `Utc::now` panics rather than
/// report a time before 1970, so the value is never negative.
#[verifier::external_body]
pub(crate) fn now_millis() -> (r: i64)
    ensures
        r >= 0,
{
    chrono::Utc::now().timestamp_millis()
}

/// A pseudo-random value; not suitable for cryptography.
fn random_u64(seed: u64) -> u64 {
    let state = RandomState::new();
    hash_with(&state, seed)
}

// ---------------------------------------------------------------------------
// Hexadecimal digits
// ---------------------------------------------------------------------------

/// Lower-case hexadecimal digit of a value below sixteen.
pub open spec fn hex_char(d: nat) -> char {
    if d == 0 { '0' } else if d == 1 { '1' } else if d == 2 { '2' } else if d == 3 { '3' }
    else if d == 4 { '4' } else if d == 5 { '5' } else if d == 6 { '6' } else if d == 7 { '7' }
    else if d == 8 { '8' } else if d == 9 { '9' } else if d == 10 { 'a' } else if d == 11 { 'b' }
    else if d == 12 { 'c' } else if d == 13 { 'd' } else if d == 14 { 'e' } else { 'f' }
}

/// Value of a hexadecimal digit (either case), or -1 for any other character.
pub open spec fn hex_value(c: char) -> int {
    if c == '0' { 0 } else if c == '1' { 1 } else if c == '2' { 2 } else if c == '3' { 3 }
    else if c == '4' { 4 } else if c == '5' { 5 } else if c == '6' { 6 } else if c == '7' { 7 }
    else if c == '8' { 8 } else if c == '9' { 9 }
    else if c == 'a' || c == 'A' { 10 } else if c == 'b' || c == 'B' { 11 }
    else if c == 'c' || c == 'C' { 12 } else if c == 'd' || c == 'D' { 13 }
    else if c == 'e' || c == 'E' { 14 } else if c == 'f' || c == 'F' { 15 }
    else { -1 }
}

pub open spec fn is_hex_digit(c: char) -> bool {
    hex_value(c) >= 0
}

/// The last `n` hexadecimal digits of `v`, most significant first.
pub open spec fn hex_digits(v: nat, n: nat) -> Seq<char>
    decreases n,
{
    if n == 0 {
        Seq::empty()
    } else {
        hex_digits(v / 16, (n - 1) as nat).push(hex_char(v % 16))
    }
}

/// `v` in hexadecimal without leading zeros (a single `0` for zero).
pub open spec fn hex_min(v: nat) -> Seq<char>
    decreases v,
{
    if v < 16 {
        seq![hex_char(v)]
    } else {
        hex_min(v / 16).push(hex_char(v % 16))
    }
}

/// The number that a string of hexadecimal digits spells.
pub open spec fn hex_number(s: Seq<char>) -> int
    decreases s.len(),
{
    if s.len() == 0 {
        0
    } else {
        hex_number(s.drop_last()) * 16 + hex_value(s.last())
    }
}

pub open spec fn pow16(n: nat) -> nat
    decreases n,
{
    if n == 0 { 1 } else { 16 * pow16((n - 1) as nat) }
}

fn hex_char_exec(d: u64) -> (c: char)
    requires
        d < 16,
    ensures
        c == hex_char(d as nat),
{
    if d == 0 { '0' } else if d == 1 { '1' } else if d == 2 { '2' } else if d == 3 { '3' }
    else if d == 4 { '4' } else if d == 5 { '5' } else if d == 6 { '6' } else if d == 7 { '7' }
    else if d == 8 { '8' } else if d == 9 { '9' } else if d == 10 { 'a' } else if d == 11 { 'b' }
    else if d == 12 { 'c' } else if d == 13 { 'd' } else if d == 14 { 'e' } else { 'f' }
}

fn hex_value_exec(c: char) -> (r: Option<u64>)
    ensures
        r is Some <==> is_hex_digit(c),
        r is Some ==> r->0 as int == hex_value(c),
{
    if c == '0' { Some(0) } else if c == '1' { Some(1) } else if c == '2' { Some(2) }
    else if c == '3' { Some(3) } else if c == '4' { Some(4) } else if c == '5' { Some(5) }
    else if c == '6' { Some(6) } else if c == '7' { Some(7) } else if c == '8' { Some(8) }
    else if c == '9' { Some(9) }
    else if c == 'a' || c == 'A' { Some(10) } else if c == 'b' || c == 'B' { Some(11) }
    else if c == 'c' || c == 'C' { Some(12) } else if c == 'd' || c == 'D' { Some(13) }
    else if c == 'e' || c == 'E' { Some(14) } else if c == 'f' || c == 'F' { Some(15) }
    else { None }
}

/// Appends the last `n` hexadecimal digits of `v`.
fn push_hex_digits(out: &mut String, v: u64, n: usize)
    ensures
        final(out)@ == old(out)@ + hex_digits(v as nat, n as nat),
    decreases n,
{
    if n == 0 {
        assert(old(out)@ + Seq::<char>::empty() =~= old(out)@);
    } else {
        push_hex_digits(out, v / 16, n - 1);
        out.push(hex_char_exec(v % 16));
        assert(final(out)@ =~= old(out)@ + hex_digits(v as nat, n as nat));
    }
}

/// Appends `v` in hexadecimal without leading zeros.
fn push_hex_min(out: &mut String, v: u64)
    ensures
        final(out)@ == old(out)@ + hex_min(v as nat),
    decreases v,
{
    if v < 16 {
        out.push(hex_char_exec(v));
        assert(final(out)@ =~= old(out)@ + hex_min(v as nat));
    } else {
        push_hex_min(out, v / 16);
        out.push(hex_char_exec(v % 16));
        assert(final(out)@ =~= old(out)@ + hex_min(v as nat));
    }
}

proof fn lemma_hex_value_of_char(d: nat)
    requires
        d < 16,
    ensures
        hex_value(hex_char(d)) == d,
        is_hex_digit(hex_char(d)),
{
}

proof fn lemma_hex_digits_len(v: nat, n: nat)
    ensures
        hex_digits(v, n).len() == n,
        forall|i: int| 0 <= i < n ==> #[trigger] is_hex_digit(hex_digits(v, n)[i]),
    decreases n,
{
    if n > 0 {
        lemma_hex_digits_len(v / 16, (n - 1) as nat);
        lemma_hex_value_of_char(v % 16);
    }
}

proof fn lemma_hex_number_of_digits(v: nat, n: nat)
    ensures
        hex_number(hex_digits(v, n)) == v % pow16(n),
    decreases n,
{
    if n == 0 {
        assert(v % 1 == 0);
    } else {
        let p = pow16((n - 1) as nat);
        lemma_pow16_pos((n - 1) as nat);
        lemma_hex_number_of_digits(v / 16, (n - 1) as nat);
        let s = hex_digits(v / 16, (n - 1) as nat);
        assert(hex_digits(v, n).drop_last() =~= s);
        lemma_hex_value_of_char(v % 16);
        lemma_mod_breakdown(v as int, 16, p as int);
        assert(hex_number(hex_digits(v, n)) == hex_number(s) * 16 + (v % 16) as int);
        assert(pow16(n) == 16 * p);
        assert(v % pow16(n) == 16 * ((v / 16) % p) + v % 16);
    }
}

proof fn lemma_pow16_pos(n: nat)
    ensures
        pow16(n) > 0,
    decreases n,
{
    if n > 0 {
        lemma_pow16_pos((n - 1) as nat);
    }
}

proof fn lemma_pow16_16()
    ensures
        pow16(16) == 0x1_0000_0000_0000_0000,
{
    reveal_with_fuel(pow16, 17);
}

// ---------------------------------------------------------------------------
// Composite identifiers
// ---------------------------------------------------------------------------

/// Serial numbers handed out to generated identifiers, in increasing order
/// (wrapping around after `u64::MAX`).
#[derive(Debug, Clone, Copy, PartialEq, Eq, Structural, Default)]
pub struct IdCounter {
    pub next: u64,
}

pub open spec fn next_serial(n: u64) -> u64 {
    if n == u64::MAX { 0 } else { (n + 1) as u64 }
}

impl IdCounter {
    pub fn new() -> (r: IdCounter)
        ensures
            r.next == 0,
    {
        IdCounter { next: 0 }
    }

    /// Hands out the current serial number and advances the counter.
    pub fn bump(&mut self) -> (r: u64)
        ensures
            r == old(self).next,
            final(self).next == next_serial(old(self).next),
    {
        let r = self.next;
        self.next = if r == u64::MAX { 0 } else { r + 1 };
        r
    }
}

/// 128-bit identifier of a character, as two 64-bit halves.
#[derive(Debug, Clone, Copy, PartialEq, Eq, Structural, Hash, Default)]
pub struct ArticyId {
    pub low: u64,
    pub high: u64,
}

/// The serial number that a generated id carries in the upper half of `low`.
pub open spec fn serial_part(id: ArticyId) -> u64 {
    id.low >> 32u64
}

/// Text form of an id: `0x` and 32 lower-case hexadecimal digits, `high` first.
pub open spec fn id_hex_text(id: ArticyId) -> Seq<char> {
    seq!['0', 'x'] + hex_digits(id.high as nat, 16) + hex_digits(id.low as nat, 16)
}

/// The text with one leading `0x` removed, if it has one.
pub open spec fn strip_hex_prefix(s: Seq<char>) -> Seq<char> {
    if s.len() >= 2 && s[0] == '0' && s[1] == 'x' {
        s.subrange(2, s.len() as int)
    } else {
        s
    }
}

/// What parsing the text form yields: an id when, after an optional `0x`,
/// exactly 32 hexadecimal digits remain.
pub open spec fn parse_id_text(s: Seq<char>) -> Option<ArticyId> {
    let t = strip_hex_prefix(s);
    if t.len() == 32 && forall|i: int| 0 <= i < 32 ==> #[trigger] is_hex_digit(t[i]) {
        Some(
            ArticyId {
                high: hex_number(t.subrange(0, 16)) as u64,
                low: hex_number(t.subrange(16, 32)) as u64,
            },
        )
    } else {
        None
    }
}

/// Reads the hexadecimal digits `s[from..to]`, which are known to be digits.
fn read_hex(s: &str, from: usize, to: usize) -> (r: u64)
    requires
        from <= to <= s@.len(),
        to - from <= 16,
        forall|i: int| from <= i < to ==> #[trigger] is_hex_digit(s@[i]),
    ensures
        r as int == hex_number(s@.subrange(from as int, to as int)),
{
    let mut v: u64 = 0;
    let mut i: usize = from;
    proof {
        assert(s@.subrange(from as int, from as int) =~= Seq::<char>::empty());
    }
    while i < to
        invariant
            from <= i <= to <= s@.len(),
            to - from <= 16,
            forall|k: int| from <= k < to ==> #[trigger] is_hex_digit(s@[k]),
            v as int == hex_number(s@.subrange(from as int, i as int)),
            v < pow16((i - from) as nat),
        decreases to - i,
    {
        let c = s.get_char(i);
        let d = hex_value_exec(c).unwrap();
        proof {
            let k = (i - from) as nat;
            assert(pow16(k + 1) == 16 * pow16(k));
            lemma_pow16_16();
            lemma_pow16_mono(k, 15);
            assert(s@.subrange(from as int, i + 1).drop_last() =~= s@.subrange(from as int, i as int));
            assert(v * 16 + d < 16 * pow16(k)) by (nonlinear_arith)
                requires v < pow16(k), d < 16;
            assert(16 * pow16(k) <= 0x1_0000_0000_0000_0000) by (nonlinear_arith)
                requires pow16(k) <= pow16(15), pow16(16) == 16 * pow16(15),
                    pow16(16) == 0x1_0000_0000_0000_0000;
        }
        v = v * 16 + d;
        i = i + 1;
    }
    v
}

proof fn lemma_pow16_mono(a: nat, b: nat)
    requires
        a <= b,
    ensures
        pow16(a) <= pow16(b),
    decreases b,
{
    if a < b {
        lemma_pow16_mono(a, (b - 1) as nat);
        lemma_pow16_pos((b - 1) as nat);
    }
}

impl ArticyId {
    /// A fresh id: the upper half of `low` carries the counter's serial
    /// number; the rest mixes the time and a random value.
    pub fn new(counter: &mut IdCounter) -> (r: ArticyId)
        ensures
            final(counter).next == next_serial(old(counter).next),
            serial_part(r) == old(counter).next & 0xFFFF_FFFFu64,
    {
        let timestamp = now_millis() as u64;
        let serial = counter.bump();
        let random = random_u64(serial);
        let low = (serial << 32u64) | (random & 0xFFFF_FFFFu64);
        proof {
            assert(((serial << 32u64) | (random & 0xFFFF_FFFFu64)) >> 32u64 == serial & 0xFFFF_FFFFu64)
                by (bit_vector);
        }
        ArticyId { high: timestamp ^ random, low }
    }

    /// `0x` followed by the 32 hexadecimal digits of the id.
    pub fn to_hex_string(&self) -> (r: String)
        ensures
            r@ == id_hex_text(*self),
    {
        let mut out = String::new();
        out.push('0');
        out.push('x');
        push_hex_digits(&mut out, self.high, 16);
        push_hex_digits(&mut out, self.low, 16);
        assert(out@ =~= id_hex_text(*self));
        out
    }

    /// Parses the text form; accepts an optional `0x` prefix and either case.
    pub fn from_hex_string(s: &str) -> (r: Option<ArticyId>)
        ensures
            r == parse_id_text(s@),
    {
        let n = s.unicode_len();
        let mut start: usize = 0;
        if n >= 2 && s.get_char(0) == '0' && s.get_char(1) == 'x' {
            start = 2;
        }
        let ghost t = strip_hex_prefix(s@);
        assert(t =~= s@.subrange(start as int, n as int));
        if n - start != 32 {
            return None;
        }
        let mut i: usize = start;
        while i < n
            invariant
                start <= i <= n,
                n == s@.len(),
                n - start == 32,
                t =~= s@.subrange(start as int, n as int),
                forall|k: int| start <= k < i ==> #[trigger] is_hex_digit(s@[k]),
            decreases n - i,
        {
            let c = s.get_char(i);
            if hex_value_exec(c).is_none() {
                assert(!is_hex_digit(t[i - start]));
                return None;
            }
            i = i + 1;
        }
        assert forall|k: int| 0 <= k < 32 implies #[trigger] is_hex_digit(t[k]) by {
            assert(is_hex_digit(s@[start + k]));
        }
        let high = read_hex(s, start, start + 16);
        let low = read_hex(s, start + 16, start + 32);
        assert(t.subrange(0, 16) =~= s@.subrange(start as int, start + 16));
        assert(t.subrange(16, 32) =~= s@.subrange(start + 16, start + 32));
        Some(ArticyId { high, low })
    }

    /// Whether both halves are zero.
    pub fn is_null(&self) -> (r: bool)
        ensures
            r == (self.high == 0 && self.low == 0),
    {
        self.high == 0 && self.low == 0
    }
}

/// Printing an id and parsing the text back gives the same id.
pub proof fn lemma_hex_round_trip(id: ArticyId)
    ensures
        parse_id_text(id_hex_text(id)) == Some(id),
{
    let s = id_hex_text(id);
    let h = hex_digits(id.high as nat, 16);
    let l = hex_digits(id.low as nat, 16);
    lemma_hex_digits_len(id.high as nat, 16);
    lemma_hex_digits_len(id.low as nat, 16);
    let t = strip_hex_prefix(s);
    assert(t =~= h + l);
    assert(t.subrange(0, 16) =~= h);
    assert(t.subrange(16, 32) =~= l);
    assert forall|i: int| 0 <= i < 32 implies #[trigger] is_hex_digit(t[i]) by {
        if i < 16 {
            assert(t[i] == h[i]);
        } else {
            assert(t[i] == l[i - 16]);
        }
    }
    lemma_hex_number_of_digits(id.high as nat, 16);
    lemma_hex_number_of_digits(id.low as nat, 16);
    lemma_pow16_16();
}

/// Two ids drawn one after the other from the same counter differ: their
/// serial parts are consecutive modulo 2^32.
pub proof fn lemma_successive_ids_differ(a: ArticyId, b: ArticyId, serial: u64)
    requires
        serial_part(a) == serial & 0xFFFF_FFFFu64,
        serial_part(b) == next_serial(serial) & 0xFFFF_FFFFu64,
    ensures
        a != b,
{
    let n = next_serial(serial);
    if serial == u64::MAX {
        assert(serial & 0xFFFF_FFFFu64 != 0u64 & 0xFFFF_FFFFu64) by (bit_vector)
            requires serial == 0xFFFF_FFFF_FFFF_FFFFu64;
    } else {
        assert(serial & 0xFFFF_FFFFu64 != ((serial + 1u64) as u64) & 0xFFFF_FFFFu64) by (bit_vector)
            requires serial < 0xFFFF_FFFF_FFFF_FFFFu64;
    }
}

// ---------------------------------------------------------------------------
// Short string ids
// ---------------------------------------------------------------------------

/// Text of a short id: time, random part and serial number in hexadecimal,
/// separated by dashes.
pub open spec fn short_id_text(timestamp: u64, random: u64, serial: u64) -> Seq<char> {
    hex_min(timestamp as nat) + seq!['-'] + hex_min(random as nat) + seq!['-'] + hex_min(
        serial as nat,
    )
}

/// Writes a short id from its three parts.
pub fn format_id(timestamp: u64, random: u64, serial: u64) -> (r: String)
    ensures
        r@ == short_id_text(timestamp, random, serial),
{
    let mut out = String::new();
    push_hex_min(&mut out, timestamp);
    out.push('-');
    push_hex_min(&mut out, random);
    out.push('-');
    push_hex_min(&mut out, serial);
    assert(out@ =~= short_id_text(timestamp, random, serial));
    out
}

/// A short id, unique among the ids drawn from one counter: it ends with the
/// counter's serial number, after the time and a 24-bit random value.
pub fn generate_id(counter: &mut IdCounter) -> (r: String)
    ensures
        final(counter).next == next_serial(old(counter).next),
        exists|t: u64, x: u64| x <= 0xFF_FFFF && r@ == short_id_text(t, x, old(counter).next),
{
    let timestamp = now_millis() as u64;
    let serial = counter.bump();
    let drawn = random_u64(serial);
    let random = drawn & 0xFF_FFFFu64;
    assert(drawn & 0xFF_FFFFu64 <= 0xFF_FFFFu64) by (bit_vector);
    format_id(timestamp, random, serial)
}

// ---------------------------------------------------------------------------
// Technical names
// ---------------------------------------------------------------------------

/// A character that a technical name keeps as it is.
pub open spec fn is_kept(c: char) -> bool {
    c != '_' && is_alnum(c)
}

/// A character that separates words: whitespace, `-` or `_`.
pub open spec fn is_separator(c: char) -> bool {
    is_ws(c) || c == '-' || c == '_'
}

/// Keeps alphanumerics, turns each run of separators that follows some kept
/// character into one `_`, and drops everything else.
pub open spec fn collapse_separators(s: Seq<char>) -> Seq<char>
    decreases s.len(),
{
    if s.len() == 0 {
        Seq::empty()
    } else {
        let r = collapse_separators(s.drop_last());
        let c = s.last();
        if is_kept(c) {
            r.push(c)
        } else if is_separator(c) && r.len() > 0 && r.last() != '_' {
            r.push('_')
        } else {
            r
        }
    }
}

pub open spec fn drop_trailing_underscore(r: Seq<char>) -> Seq<char> {
    if r.len() > 0 && r.last() == '_' {
        r.drop_last()
    } else {
        r
    }
}

pub open spec fn guard_leading_digit(r: Seq<char>) -> Seq<char> {
    if r.len() > 0 && is_num(r[0]) {
        seq!['_'] + r
    } else {
        r
    }
}

pub open spec fn truncate_64(r: Seq<char>) -> Seq<char> {
    if r.len() > 64 {
        r.subrange(0, 64)
    } else {
        r
    }
}

/// The identifier-safe form of a display name.
pub open spec fn technical_name(s: Seq<char>) -> Seq<char> {
    truncate_64(guard_leading_digit(drop_trailing_underscore(collapse_separators(s))))
}

/// Derives the technical name of a display name.
pub fn to_technical_name(display_name: &str) -> (r: String)
    ensures
        r@ == technical_name(display_name@),
{
    let n = display_name.unicode_len();
    let mut acc: Vec<char> = Vec::new();
    let mut i: usize = 0;
    while i < n
        invariant
            i <= n,
            n == display_name@.len(),
            acc@ == collapse_separators(display_name@.subrange(0, i as int)),
        decreases n - i,
    {
        let c = display_name.get_char(i);
        proof {
            assert(display_name@.subrange(0, i + 1).drop_last() =~= display_name@.subrange(
                0,
                i as int,
            ));
        }
        if c != '_' && c.is_alphanumeric() {
            acc.push(c);
        } else if c.is_whitespace() || c == '-' || c == '_' {
            if acc.len() > 0 && acc[acc.len() - 1] != '_' {
                acc.push('_');
            }
        }
        i = i + 1;
    }
    assert(display_name@.subrange(0, n as int) =~= display_name@);
    if acc.len() > 0 && acc[acc.len() - 1] == '_' {
        acc.pop();
    }
    let mut p: Vec<char> = Vec::new();
    if acc.len() > 0 && acc[0].is_numeric() {
        p.push('_');
    }
    let ghost head = p@;
    let mut j: usize = 0;
    while j < acc.len()
        invariant
            j <= acc.len(),
            p@ == head + acc@.subrange(0, j as int),
        decreases acc.len() - j,
    {
        p.push(acc[j]);
        j = j + 1;
        assert(p@ =~= head + acc@.subrange(0, j as int));
    }
    assert(p@ =~= guard_leading_digit(acc@));
    let limit: usize = if p.len() > 64 { 64 } else { p.len() };
    let mut out = String::new();
    let mut k: usize = 0;
    while k < limit
        invariant
            limit <= p.len(),
            k <= limit,
            out@ == p@.subrange(0, k as int),
        decreases limit - k,
    {
        out.push(p[k]);
        k = k + 1;
        assert(out@ =~= p@.subrange(0, k as int));
    }
    assert(out@ =~= truncate_64(p@));
    out
}

/// A string made of kept characters and single underscores, not starting
/// with an underscore.
pub open spec fn is_clean(u: Seq<char>) -> bool {
    &&& forall|i: int| 0 <= i < u.len() ==> is_kept(#[trigger] u[i]) || u[i] == '_'
    &&& forall|i: int| 0 <= i < u.len() - 1 ==> !(#[trigger] u[i] == '_' && u[i + 1] == '_')
    &&& u.len() > 0 ==> u[0] != '_'
}

proof fn lemma_collapse_is_clean(s: Seq<char>)
    ensures
        is_clean(collapse_separators(s)),
    decreases s.len(),
{
    if s.len() > 0 {
        lemma_collapse_is_clean(s.drop_last());
        let r = collapse_separators(s.drop_last());
        let u = collapse_separators(s);
        assert forall|i: int| 0 <= i < u.len() - 1 implies !(#[trigger] u[i] == '_' && u[i + 1]
            == '_') by {
            if i + 1 < r.len() {
                assert(u[i] == r[i] && u[i + 1] == r[i + 1]);
            }
        }
        assert forall|i: int| 0 <= i < u.len() implies is_kept(#[trigger] u[i]) || u[i] == '_' by {
            if i < r.len() {
                assert(u[i] == r[i]);
            }
        }
    }
}

proof fn lemma_clean_prefix(u: Seq<char>, k: int)
    requires
        is_clean(u),
        0 <= k <= u.len(),
    ensures
        is_clean(u.subrange(0, k)),
{
    let v = u.subrange(0, k);
    assert forall|i: int| 0 <= i < v.len() - 1 implies !(#[trigger] v[i] == '_' && v[i + 1]
        == '_') by {
        assert(v[i] == u[i] && v[i + 1] == u[i + 1]);
    }
    assert forall|i: int| 0 <= i < v.len() implies is_kept(#[trigger] v[i]) || v[i] == '_' by {
        assert(v[i] == u[i]);
    }
}

proof fn lemma_collapse_clean_fixed(u: Seq<char>)
    requires
        is_clean(u),
    ensures
        collapse_separators(u) == u,
    decreases u.len(),
{
    if u.len() > 0 {
        let w = u.drop_last();
        lemma_clean_prefix(u, u.len() - 1);
        assert(w =~= u.subrange(0, u.len() - 1));
        lemma_collapse_clean_fixed(w);
        let c = u.last();
        if c == '_' {
            assert(u.len() > 1);
            assert(!(u[u.len() - 2] == '_' && u[u.len() - 1] == '_'));
            assert(w.last() == u[u.len() - 2]);
        } else {
            assert(is_kept(u[u.len() - 1]));
        }
        assert(w.push(c) =~= u);
    }
}

proof fn lemma_collapse_skips_leading_underscore(u: Seq<char>)
    ensures
        collapse_separators(seq!['_'] + u) == collapse_separators(u),
    decreases u.len(),
{
    let x = seq!['_'] + u;
    if u.len() == 0 {
        assert(x.drop_last() =~= Seq::<char>::empty());
        assert(x.last() == '_');
        assert(collapse_separators(x.drop_last()).len() == 0);
        assert(collapse_separators(x) =~= Seq::<char>::empty());
        assert(u =~= Seq::<char>::empty());
    } else {
        assert(x.drop_last() =~= seq!['_'] + u.drop_last());
        assert(x.last() == u.last());
        lemma_collapse_skips_leading_underscore(u.drop_last());
    }
}

/// Sanitising a technical name again changes nothing, except that an
/// underscore that truncation left at the end is dropped. A technical name
/// is made of alphanumerics and single underscores, starts with an
/// underscore only before a digit, has at most 64 characters, and ends with
/// an underscore only when it was cut at 64.
pub proof fn lemma_technical_name_stable(s: Seq<char>)
    ensures
        technical_name(technical_name(s)) == drop_trailing_underscore(technical_name(s)),
        forall|i: int|
            0 <= i < technical_name(s).len() ==> is_alnum(#[trigger] technical_name(s)[i])
                || technical_name(s)[i] == '_',
        forall|i: int|
            0 <= i < technical_name(s).len() - 1 ==> !(#[trigger] technical_name(s)[i] == '_'
                && technical_name(s)[i + 1] == '_'),
        technical_name(s).len() > 0 && technical_name(s)[0] == '_' ==> technical_name(s).len() > 1
            && is_num(technical_name(s)[1]),
        technical_name(s).len() <= 64,
        technical_name(s).len() > 0 && technical_name(s).last() == '_' ==> technical_name(s).len()
            == 64,
{
    let c = collapse_separators(s);
    lemma_collapse_is_clean(s);
    let w = drop_trailing_underscore(c);
    lemma_clean_prefix(c, w.len() as int);
    assert(w =~= c.subrange(0, w.len() as int));
    assert(w.len() > 0 ==> w.last() != '_') by {
        if c.len() > 0 && c.last() == '_' && w.len() > 0 {
            assert(!(c[c.len() - 2] == '_' && c[c.len() - 1] == '_'));
            assert(w.last() == c[c.len() - 2]);
        }
    }
    let p = guard_leading_digit(w);
    let t = truncate_64(p);
    if w.len() > 0 && is_num(w[0]) {
        let k = if p.len() > 64 { 64int } else { p.len() as int };
        let v = w.subrange(0, k - 1);
        assert(t =~= seq!['_'] + v);
        lemma_clean_prefix(w, k - 1);
        lemma_collapse_skips_leading_underscore(v);
        lemma_collapse_clean_fixed(v);
        assert(collapse_separators(t) == v);
        assert(v[0] == w[0]);
        let v2 = drop_trailing_underscore(v);
        assert(v2.len() > 0 && v2[0] == w[0]);
        assert(drop_trailing_underscore(t) =~= seq!['_'] + v2);
        assert(guard_leading_digit(v2) == seq!['_'] + v2);
        assert forall|i: int| 0 <= i < t.len() implies is_alnum(#[trigger] t[i]) || t[i] == '_' by {
            if i > 0 {
                assert(t[i] == v[i - 1]);
            }
        }
        assert forall|i: int| 0 <= i < t.len() - 1 implies !(#[trigger] t[i] == '_' && t[i + 1]
            == '_') by {
            if i > 0 {
                assert(t[i] == v[i - 1] && t[i + 1] == v[i]);
            }
        }
        if t.len() < 64 {
            assert(v =~= w);
        }
    } else {
        assert(p == w);
        let k = if w.len() > 64 { 64int } else { w.len() as int };
        assert(t =~= w.subrange(0, k));
        lemma_clean_prefix(w, k);
        lemma_collapse_clean_fixed(t);
        let t2 = drop_trailing_underscore(t);
        if t2.len() > 0 {
            assert(t2[0] == w[0]);
        }
        assert(guard_leading_digit(t2) == t2);
        if t.len() < 64 {
            assert(t =~= w);
        }
    }
}

/// The id text `id` was written with serial number `serial`.
pub open spec fn has_serial(id: Seq<char>, serial: u64) -> bool {
    exists|t: u64, x: u64| x <= 0xFF_FFFF && #[trigger] short_id_text(t, x, serial) == id
}

/// The serial number `k` steps after `c`.
pub open spec fn serial_after(c: u64, k: nat) -> u64
    decreases k,
{
    if k == 0 {
        c
    } else {
        next_serial(serial_after(c, (k - 1) as nat))
    }
}

/// What follows the last `-` of a text (all of it when there is none).
pub open spec fn after_last_dash(s: Seq<char>) -> Seq<char>
    decreases s.len(),
{
    if s.len() == 0 {
        s
    } else if s.last() == '-' {
        Seq::empty()
    } else {
        after_last_dash(s.drop_last()).push(s.last())
    }
}

proof fn lemma_hex_min_facts(v: nat)
    ensures
        hex_number(hex_min(v)) == v,
        forall|i: int| 0 <= i < hex_min(v).len() ==> #[trigger] hex_min(v)[i] != '-',
    decreases v,
{
    if v < 16 {
        assert(seq![hex_char(v)].drop_last() =~= Seq::<char>::empty());
        lemma_hex_value_of_char(v);
        assert(hex_number(hex_min(v)) == hex_number(Seq::<char>::empty()) * 16 + hex_value(hex_char(v)));
    } else {
        lemma_hex_min_facts(v / 16);
        lemma_hex_value_of_char(v % 16);
        assert(hex_min(v).drop_last() =~= hex_min(v / 16));
        let h = hex_min(v);
        assert(h.last() == hex_char(v % 16));
        vstd::arithmetic::div_mod::lemma_fundamental_div_mod(v as int, 16);
        assert(hex_number(h) == hex_number(hex_min(v / 16)) * 16 + hex_value(hex_char(v % 16)));
        assert forall|i: int| 0 <= i < h.len() implies #[trigger] h[i] != '-' by {
            if i < h.len() - 1 {
                assert(h[i] == hex_min(v / 16)[i]);
            }
        }
    }
}

proof fn lemma_after_last_dash(a: Seq<char>, h: Seq<char>)
    requires
        forall|i: int| 0 <= i < h.len() ==> #[trigger] h[i] != '-',
    ensures
        after_last_dash(a + seq!['-'] + h) == h,
    decreases h.len(),
{
    let s = a + seq!['-'] + h;
    if h.len() == 0 {
        assert(s =~= a.push('-'));
        assert(s.last() == '-');
    } else {
        lemma_after_last_dash(a, h.drop_last());
        assert(s.drop_last() =~= a + seq!['-'] + h.drop_last());
        assert(s.last() == h.last());
        assert(h.last() == h[h.len() - 1]);
        assert(h.drop_last().push(h.last()) =~= h);
    }
}

/// Ids written with different serial numbers differ.
pub proof fn lemma_serials_tell_ids_apart(a: Seq<char>, b: Seq<char>, s1: u64, s2: u64)
    requires
        has_serial(a, s1),
        has_serial(b, s2),
        s1 != s2,
    ensures
        a != b,
{
    let (t1, x1) = choose|t: u64, x: u64| x <= 0xFF_FFFF && #[trigger] short_id_text(t, x, s1) == a;
    let (t2, x2) = choose|t: u64, x: u64| x <= 0xFF_FFFF && #[trigger] short_id_text(t, x, s2) == b;
    lemma_hex_min_facts(s1 as nat);
    lemma_hex_min_facts(s2 as nat);
    let p1 = hex_min(t1 as nat) + seq!['-'] + hex_min(x1 as nat);
    let p2 = hex_min(t2 as nat) + seq!['-'] + hex_min(x2 as nat);
    assert(a =~= p1 + seq!['-'] + hex_min(s1 as nat));
    assert(b =~= p2 + seq!['-'] + hex_min(s2 as nat));
    lemma_after_last_dash(p1, hex_min(s1 as nat));
    lemma_after_last_dash(p2, hex_min(s2 as nat));
}

/// Up to three steps on, serial numbers never repeat one another.
pub proof fn lemma_serials_distinct(c: u64, k1: nat, k2: nat)
    requires
        k1 < k2 <= 3,
    ensures
        serial_after(c, k1) != serial_after(c, k2),
{
    lemma_serial_after_value(c, k1);
    lemma_serial_after_value(c, k2);
}

proof fn lemma_serial_after_value(c: u64, k: nat)
    requires
        k <= 3,
    ensures
        serial_after(c, k) as int == if c + k < 0x1_0000_0000_0000_0000 {
            c + k
        } else {
            c + k - 0x1_0000_0000_0000_0000
        },
    decreases k,
{
    if k > 0 {
        lemma_serial_after_value(c, (k - 1) as nat);
    }
}

} // verus!

//! Character-level primitives of the token payload encoding: fixed-width
//! hexadecimal numbers and length-prefixed strings, with an exact
//! specification of both the encoder and the parser and proofs that the
//! parser accepts exactly the encoder's output.

use vstd::prelude::*;
use vstd::string::StrSliceExecFns;

verus! {

// --- hexadecimal digits ---

/// The character encoding the hex digit `d` (meaningful for `d < 16`).
pub open spec fn hex_char(d: nat) -> char {
    if d == 0 { '0' }
    else if d == 1 { '1' }
    else if d == 2 { '2' }
    else if d == 3 { '3' }
    else if d == 4 { '4' }
    else if d == 5 { '5' }
    else if d == 6 { '6' }
    else if d == 7 { '7' }
    else if d == 8 { '8' }
    else if d == 9 { '9' }
    else if d == 10 { 'a' }
    else if d == 11 { 'b' }
    else if d == 12 { 'c' }
    else if d == 13 { 'd' }
    else if d == 14 { 'e' }
    else { 'f' }
}

/// The value of a hex digit character; 16 marks a character that is no
/// hex digit.
pub open spec fn hex_val(c: char) -> nat {
    if c == '0' { 0 }
    else if c == '1' { 1 }
    else if c == '2' { 2 }
    else if c == '3' { 3 }
    else if c == '4' { 4 }
    else if c == '5' { 5 }
    else if c == '6' { 6 }
    else if c == '7' { 7 }
    else if c == '8' { 8 }
    else if c == '9' { 9 }
    else if c == 'a' { 10 }
    else if c == 'b' { 11 }
    else if c == 'c' { 12 }
    else if c == 'd' { 13 }
    else if c == 'e' { 14 }
    else if c == 'f' { 15 }
    else { 16 }
}

pub open spec fn is_hex_char(c: char) -> bool {
    hex_val(c) < 16
}

// --- fixed-width hex numbers ---

/// The `width` low hex digits of `n`, most significant first.
pub open spec fn enc_hex(n: nat, width: nat) -> Seq<char>
    decreases width,
{
    if width == 0 {
        Seq::empty()
    } else {
        enc_hex(n / 16, (width - 1) as nat).push(hex_char(n % 16))
    }
}

/// A `u64` encoded as exactly 16 hex digits.
pub open spec fn enc_u64(n: u64) -> Seq<char> {
    enc_hex(n as nat, 16)
}

/// The value of a sequence of hex digit characters, most significant first.
pub open spec fn hex_seq_val(s: Seq<char>) -> nat
    decreases s.len(),
{
    if s.len() == 0 {
        0
    } else {
        hex_seq_val(s.drop_last()) * 16 + hex_val(s.last())
    }
}

pub open spec fn all_hex(s: Seq<char>) -> bool {
    forall|i: int| 0 <= i < s.len() ==> is_hex_char(#[trigger] s[i])
}

pub open spec fn pow16(w: nat) -> nat
    decreases w,
{
    if w == 0 {
        1
    } else {
        16 * pow16((w - 1) as nat)
    }
}

pub proof fn lemma_pow16_16()
    ensures
        pow16(16) == 0x1_0000_0000_0000_0000,
{
    assert(pow16(0) == 1);
    assert(pow16(1) == 16);
    assert(pow16(2) == 0x100);
    assert(pow16(3) == 0x1000);
    assert(pow16(4) == 0x1_0000);
    assert(pow16(5) == 0x10_0000);
    assert(pow16(6) == 0x100_0000);
    assert(pow16(7) == 0x1000_0000);
    assert(pow16(8) == 0x1_0000_0000);
    assert(pow16(9) == 0x10_0000_0000);
    assert(pow16(10) == 0x100_0000_0000);
    assert(pow16(11) == 0x1000_0000_0000);
    assert(pow16(12) == 0x1_0000_0000_0000);
    assert(pow16(13) == 0x10_0000_0000_0000);
    assert(pow16(14) == 0x100_0000_0000_0000);
    assert(pow16(15) == 0x1000_0000_0000_0000);
    assert(pow16(16) == 0x1_0000_0000_0000_0000);
}

pub proof fn lemma_enc_hex_shape(n: nat, w: nat)
    ensures
        enc_hex(n, w).len() == w,
        all_hex(enc_hex(n, w)),
    decreases w,
{
    if w > 0 {
        lemma_enc_hex_shape(n / 16, (w - 1) as nat);
        assert(hex_val(hex_char(n % 16)) == n % 16);
        assert(forall|i: int| 0 <= i < w ==> is_hex_char(#[trigger] enc_hex(n, w)[i])) by {
            assert forall|i: int| 0 <= i < w implies is_hex_char(#[trigger] enc_hex(n, w)[i]) by {
                if i < w - 1 + 1 && i < enc_hex(n / 16, (w - 1) as nat).len() {
                    assert(enc_hex(n, w)[i] == enc_hex(n / 16, (w - 1) as nat)[i]);
                } else {
                    assert(enc_hex(n, w)[i] == hex_char(n % 16));
                }
            }
        }
    }
}

/// Parsing the encoding of `n` gives back `n`, provided `n` fits in `width`
/// digits.
pub proof fn lemma_enc_hex_val(n: nat, w: nat)
    requires
        n < pow16(w),
    ensures
        hex_seq_val(enc_hex(n, w)) == n,
    decreases w,
{
    if w == 0 {
        assert(enc_hex(n, 0) == Seq::<char>::empty());
    } else {
        lemma_enc_hex_shape(n / 16, (w - 1) as nat);
        let e = enc_hex(n, w);
        let e0 = enc_hex(n / 16, (w - 1) as nat);
        assert(e == e0.push(hex_char(n % 16)));
        assert(e.drop_last() =~= e0);
        assert(e.last() == hex_char(n % 16));
        assert(n / 16 < pow16((w - 1) as nat)) by (nonlinear_arith)
            requires n < pow16(w), pow16(w) == 16 * pow16((w - 1) as nat);
        lemma_enc_hex_val(n / 16, (w - 1) as nat);
        assert(hex_val(hex_char(n % 16)) == n % 16);
        assert(hex_seq_val(e) == (n / 16) * 16 + n % 16);
        assert((n / 16) * 16 + n % 16 == n) by (nonlinear_arith);
    }
}

/// The value of `width` hex digits is below `16^width`.
pub proof fn lemma_hex_seq_val_bound(s: Seq<char>)
    requires
        all_hex(s),
    ensures
        hex_seq_val(s) < pow16(s.len()),
    decreases s.len(),
{
    if s.len() > 0 {
        assert(all_hex(s.drop_last())) by {
            assert(forall|i: int| 0 <= i < s.len() - 1 ==> s.drop_last()[i] == #[trigger] s[i]);
        }
        lemma_hex_seq_val_bound(s.drop_last());
        assert(is_hex_char(s[s.len() - 1]));
        assert(hex_val(s.last()) < 16);
        let h = hex_seq_val(s.drop_last());
        assert(h * 16 + hex_val(s.last()) < pow16(s.len())) by (nonlinear_arith)
            requires
                h < pow16((s.len() - 1) as nat),
                hex_val(s.last()) < 16,
                pow16(s.len() as nat) == 16 * pow16((s.len() - 1) as nat);
    }
}

/// A sequence of hex digits is the encoding of its own value: the encoding
/// is canonical.
pub proof fn lemma_enc_hex_canonical(s: Seq<char>)
    requires
        all_hex(s),
    ensures
        enc_hex(hex_seq_val(s), s.len()) == s,
    decreases s.len(),
{
    if s.len() > 0 {
        assert(all_hex(s.drop_last())) by {
            assert(forall|i: int| 0 <= i < s.len() - 1 ==> s.drop_last()[i] == #[trigger] s[i]);
        }
        lemma_enc_hex_canonical(s.drop_last());
        lemma_hex_seq_val_bound(s.drop_last());
        let v = hex_seq_val(s);
        let h = hex_seq_val(s.drop_last());
        let d = hex_val(s.last());
        assert(v == h * 16 + d);
        assert(d < 16);
        assert(v / 16 == h && v % 16 == d) by (nonlinear_arith)
            requires v == h * 16 + d, 0 <= d < 16, h >= 0;
        assert(is_hex_char(s.last()));
        assert(hex_char(hex_val(s.last())) == s.last());
        assert(enc_hex(v, s.len()) == enc_hex(h, (s.len() - 1) as nat).push(s.last()));
        assert(enc_hex(v, s.len()) =~= s);
    }
}

// --- positional parsing specifications ---

/// Parse 16 hex digits at `pos` as a `u64`; `None` if out of range or not
/// all hex digits.
pub open spec fn sp_u64_at(s: Seq<char>, pos: int) -> Option<u64> {
    if 0 <= pos && pos + 16 <= s.len() && all_hex(s.subrange(pos, pos + 16)) {
        Some(hex_seq_val(s.subrange(pos, pos + 16)) as u64)
    } else {
        None
    }
}

/// A string encoded as its length (16 hex digits) followed by its
/// characters verbatim.
pub open spec fn enc_lstr(s: Seq<char>) -> Seq<char> {
    enc_u64(s.len() as u64) + s
}

/// Parse a length-prefixed string at `pos`: the string and the position
/// just past it.
pub open spec fn sp_lstr_at(s: Seq<char>, pos: int) -> Option<(Seq<char>, int)> {
    match sp_u64_at(s, pos) {
        Some(n) => {
            if pos + 16 + n <= s.len() {
                Some((s.subrange(pos + 16, pos + 16 + n), pos + 16 + n))
            } else {
                None
            }
        },
        None => None,
    }
}

/// The hex encoding of a `u64` is 16 hex digits.
pub proof fn lemma_enc_u64_shape(n: u64)
    ensures
        enc_u64(n).len() == 16,
        all_hex(enc_u64(n)),
{
    lemma_enc_hex_shape(n as nat, 16);
}

/// The length-prefixed encoding of `t` is 16 digits plus `t` itself.
pub proof fn lemma_enc_lstr_len(t: Seq<char>)
    ensures
        enc_lstr(t).len() == 16 + t.len(),
{
    lemma_enc_hex_shape((t.len() as u64) as nat, 16);
}

/// Parsing the encoding of `n` at `pos` yields `n`, wherever the encoding
/// stands in a larger sequence.
pub proof fn lemma_sp_u64_roundtrip(s: Seq<char>, pos: int, n: u64)
    requires
        0 <= pos,
        pos + 16 <= s.len(),
        s.subrange(pos, pos + 16) == enc_u64(n),
    ensures
        sp_u64_at(s, pos) == Some(n),
{
    lemma_enc_hex_shape(n as nat, 16);
    lemma_pow16_16();
    lemma_enc_hex_val(n as nat, 16);
}

/// A successful `u64` parse reads exactly the canonical encoding of its
/// result.
pub proof fn lemma_sp_u64_sound(s: Seq<char>, pos: int, n: u64)
    requires
        sp_u64_at(s, pos) == Some(n),
    ensures
        0 <= pos,
        pos + 16 <= s.len(),
        s.subrange(pos, pos + 16) == enc_u64(n),
{
    let sub = s.subrange(pos, pos + 16);
    lemma_hex_seq_val_bound(sub);
    lemma_pow16_16();
    assert(hex_seq_val(sub) < 0x1_0000_0000_0000_0000);
    assert(n as nat == hex_seq_val(sub));
    lemma_enc_hex_canonical(sub);
}

/// Parsing the encoding of a string `t` at `pos` yields `t`, wherever the
/// encoding stands in a larger sequence.
pub proof fn lemma_sp_lstr_roundtrip(s: Seq<char>, pos: int, t: Seq<char>)
    requires
        0 <= pos,
        t.len() <= u64::MAX,
        pos + enc_lstr(t).len() <= s.len(),
        s.subrange(pos, pos + enc_lstr(t).len()) == enc_lstr(t),
    ensures
        sp_lstr_at(s, pos) == Some((t, pos + enc_lstr(t).len())),
{
    lemma_enc_hex_shape(t.len() as u64 as nat, 16);
    let n: u64 = t.len() as u64;
    assert(enc_lstr(t).len() == 16 + t.len());
    assert(s.subrange(pos, pos + 16) =~= enc_lstr(t).subrange(0, 16));
    assert(enc_lstr(t).subrange(0, 16) =~= enc_u64(n));
    lemma_sp_u64_roundtrip(s, pos, n);
    assert(s.subrange(pos + 16, pos + 16 + n) =~= enc_lstr(t).subrange(16, 16 + t.len() as int));
    assert(enc_lstr(t).subrange(16, 16 + t.len() as int) =~= t);
}

/// A successful string parse reads exactly the canonical encoding of its
/// result.
pub proof fn lemma_sp_lstr_sound(s: Seq<char>, pos: int, t: Seq<char>, end: int)
    requires
        sp_lstr_at(s, pos) == Some((t, end)),
    ensures
        0 <= pos,
        pos <= end <= s.len(),
        end == pos + 16 + t.len(),
        t.len() <= u64::MAX,
        s.subrange(pos, end) == enc_lstr(t),
{
    let n = sp_u64_at(s, pos)->Some_0;
    lemma_sp_u64_sound(s, pos, n);
    assert(t == s.subrange(pos + 16, pos + 16 + n));
    assert(t.len() == n);
    assert(t.len() as u64 == n);
    assert(s.subrange(pos, end) =~= s.subrange(pos, pos + 16) + s.subrange(pos + 16, pos + 16 + n));
    assert(enc_lstr(t) == enc_u64(n) + t);
}

// --- executable counterparts ---

pub fn hex_char_exec(d: u64) -> (c: char)
    requires
        d < 16,
    ensures
        c == hex_char(d as nat),
{
    if d == 0 { '0' }
    else if d == 1 { '1' }
    else if d == 2 { '2' }
    else if d == 3 { '3' }
    else if d == 4 { '4' }
    else if d == 5 { '5' }
    else if d == 6 { '6' }
    else if d == 7 { '7' }
    else if d == 8 { '8' }
    else if d == 9 { '9' }
    else if d == 10 { 'a' }
    else if d == 11 { 'b' }
    else if d == 12 { 'c' }
    else if d == 13 { 'd' }
    else if d == 14 { 'e' }
    else { 'f' }
}

pub fn hex_val_exec(c: char) -> (v: u64)
    ensures
        v as nat == hex_val(c),
{
    if c == '0' { 0 }
    else if c == '1' { 1 }
    else if c == '2' { 2 }
    else if c == '3' { 3 }
    else if c == '4' { 4 }
    else if c == '5' { 5 }
    else if c == '6' { 6 }
    else if c == '7' { 7 }
    else if c == '8' { 8 }
    else if c == '9' { 9 }
    else if c == 'a' { 10 }
    else if c == 'b' { 11 }
    else if c == 'c' { 12 }
    else if c == 'd' { 13 }
    else if c == 'e' { 14 }
    else if c == 'f' { 15 }
    else { 16 }
}

/// Appends the fixed-width hex encoding of `n` to `out`.
pub fn push_enc_hex(out: &mut Vec<char>, n: u64, width: u64)
    requires
        width <= 16,
    ensures
        final(out)@ == old(out)@ + enc_hex(n as nat, width as nat),
    decreases width,
{
    if width == 0 {
        assert(out@ =~= old(out)@ + enc_hex(n as nat, 0));
    } else {
        push_enc_hex(out, n / 16, width - 1);
        assert(n as nat / 16 == (n / 16) as nat);
        out.push(hex_char_exec(n % 16));
        assert(out@ =~= old(out)@ + enc_hex(n as nat, width as nat));
    }
}

/// Appends the 16-digit hex encoding of `n` to `out`.
pub fn push_enc_u64(out: &mut Vec<char>, n: u64)
    ensures
        final(out)@ == old(out)@ + enc_u64(n),
{
    push_enc_hex(out, n, 16);
}

/// Appends the length-prefixed encoding of `t` to `out`.
pub fn push_enc_lstr(out: &mut Vec<char>, t: &Vec<char>)
    ensures
        final(out)@ == old(out)@ + enc_lstr(t@),
{
    push_enc_u64(out, t.len() as u64);
    let mut j: usize = 0;
    while j < t.len()
        invariant
            j <= t.len(),
            out@ == old(out)@ + enc_u64(t@.len() as u64) + t@.subrange(0, j as int),
        decreases t.len() - j,
    {
        out.push(t[j]);
        assert(out@ =~= old(out)@ + enc_u64(t@.len() as u64) + t@.subrange(0, j + 1 as int));
        j += 1;
    }
    assert(t@.subrange(0, t@.len() as int) =~= t@);
    assert(out@ =~= old(out)@ + enc_lstr(t@));
}

/// Parses 16 hex digits at `pos` as a `u64`.
pub fn parse_u64_at(s: &Vec<char>, pos: usize) -> (r: Option<u64>)
    requires
        pos <= s.len(),
    ensures
        r == sp_u64_at(s@, pos as int),
{
    if s.len() - pos < 16 {
        return None;
    }
    let mut acc: u64 = 0;
    let mut i: usize = 0;
    proof {
        lemma_pow16_16();
    }
    while i < 16
        invariant
            i <= 16,
            pos + 16 <= s.len(),
            pow16(16) == 0x1_0000_0000_0000_0000,
            all_hex(s@.subrange(pos as int, pos + i as int)),
            acc as nat == hex_seq_val(s@.subrange(pos as int, pos + i as int)),
            (acc as nat) < pow16(i as nat),
        decreases 16 - i,
    {
        let v = hex_val_exec(s[pos + i]);
        if v == 16 {
            proof {
                let sub = s@.subrange(pos as int, pos + 16 as int);
                assert(sub[i as int] == s@[pos + i as int]);
                assert(!is_hex_char(sub[i as int]));
            }
            return None;
        }
        proof {
            let sub1 = s@.subrange(pos as int, pos + (i + 1) as int);
            assert(sub1.drop_last() =~= s@.subrange(pos as int, pos + i as int));
            assert(sub1.last() == s@[pos + i as int]);
            assert(forall|k: int| 0 <= k < sub1.len() ==> #[trigger] sub1[k] == s@[pos + k]);
            assert(pow16((i + 1) as nat) == 16 * pow16(i as nat));
            assert(pow16(i as nat) <= pow16(15)) by {
                lemma_pow16_mono(i as nat, 15);
            }
            assert(pow16(15) == 0x1000_0000_0000_0000) by {
                lemma_pow16_16();
                assert(pow16(16) == 16 * pow16(15));
            }
            assert((acc as nat) * 16 + (v as nat) < pow16((i + 1) as nat)) by (nonlinear_arith)
                requires
                    (acc as nat) < pow16(i as nat),
                    (v as nat) < 16,
                    pow16((i + 1) as nat) == 16 * pow16(i as nat);
        }
        acc = acc * 16 + v;
        i += 1;
    }
    proof {
        assert(all_hex(s@.subrange(pos as int, pos + 16 as int)));
        assert(acc as nat == hex_seq_val(s@.subrange(pos as int, pos + 16 as int)));
    }
    Some(acc)
}

pub proof fn lemma_pow16_mono(a: nat, b: nat)
    requires
        a <= b,
    ensures
        pow16(a) <= pow16(b),
    decreases b,
{
    if a < b {
        lemma_pow16_mono(a, (b - 1) as nat);
        assert(pow16(b) == 16 * pow16((b - 1) as nat));
        assert(pow16((b - 1) as nat) <= 16 * pow16((b - 1) as nat)) by (nonlinear_arith)
            requires pow16((b - 1) as nat) >= 0;
    }
}

/// Parses a length-prefixed string at `pos`: the string and the position
/// just past it.
pub fn parse_lstr_at(s: &Vec<char>, pos: usize) -> (r: Option<(Vec<char>, usize)>)
    requires
        pos <= s.len(),
    ensures
        match r {
            Some(p) => {
                &&& sp_lstr_at(s@, pos as int) == Some((p.0@, p.1 as int))
                &&& p.1 <= s.len()
            },
            None => sp_lstr_at(s@, pos as int) is None,
        },
{
    let n = match parse_u64_at(s, pos) {
        Some(n) => n,
        None => {
            return None;
        },
    };
    let rest: usize = s.len() - (pos + 16);
    if n > rest as u64 {
        return None;
    }
    let n_us: usize = n as usize;
    let mut t: Vec<char> = Vec::new();
    let mut j: usize = 0;
    while j < n_us
        invariant
            j <= n_us,
            n_us == n,
            pos + 16 + n_us <= s.len(),
            t@ == s@.subrange(pos + 16, pos + 16 + j as int),
        decreases n_us - j,
    {
        t.push(s[pos + 16 + j]);
        assert(t@ =~= s@.subrange(pos + 16, pos + 16 + (j + 1) as int));
        j += 1;
    }
    Some((t, pos + 16 + n_us))
}

/// The characters of a string slice, collected by a verified loop.
pub fn str_to_chars(s: &str) -> (v: Vec<char>)
    ensures
        v@ == s@,
{
    let n = s.unicode_len();
    let mut v: Vec<char> = Vec::new();
    let mut i: usize = 0;
    while i < n
        invariant
            i <= n,
            n == s@.len(),
            v@ == s@.subrange(0, i as int),
        decreases n - i,
    {
        v.push(s.get_char(i));
        assert(v@ =~= s@.subrange(0, i + 1 as int));
        i += 1;
    }
    assert(v@ =~= s@);
    v
}

/// Relies on `String`'s `FromIterator` impl: collecting characters yields
/// a string of exactly those characters, in order.
#[verifier::external_body]
pub fn string_from_chars(v: &Vec<char>) -> (s: String)
    ensures
        s@ == v@,
{
    v.iter().collect()
}

/// Compares two string slices character by character.
pub fn str_eq(a: &str, b: &str) -> (r: bool)
    ensures
        r == (a@ == b@),
{
    let na = a.unicode_len();
    let nb = b.unicode_len();
    if na != nb {
        return false;
    }
    let mut i: usize = 0;
    while i < na
        invariant
            i <= na,
            na == a@.len(),
            nb == b@.len(),
            na == nb,
            forall|k: int| 0 <= k < i ==> a@[k] == b@[k],
        decreases na - i,
    {
        if a.get_char(i) != b.get_char(i) {
            return false;
        }
        i += 1;
    }
    proof {
        assert(a@ =~= b@);
    }
    true
}

} // verus!

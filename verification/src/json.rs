//! Primitives for the legacy JSON payload format.
//!
//! Before the binary encoding, game state travelled as compact JSON: no
//! whitespace, fields in declaration order, `u64` values as canonical
//! decimals, and strings of printable ASCII with `"` and `\` escaped.  The
//! decoder keeps that format readable for good, so these primitives come
//! with the same two lemmas as the binary ones: parsing inverts encoding,
//! and a successful parse pins the consumed bytes down exactly.

use vstd::prelude::*;

verus! {

use crate::bytes::ascii_string;
use crate::bytes::bytes_chars;
use crate::bytes::printable_bytes;
use crate::bytes::wf_text;
use vstd::string::StrSliceExecFns;

/// The bytes of a JSON structural literal, written as the UTF-8 bytes of
/// the source text (all the literals used here are ASCII).
pub open spec fn lit(s: Seq<char>) -> Seq<u8> {
    vstd::utf8::encode_utf8(s)
}

// ---------------------------------------------------------------------------
// structural literals
// ---------------------------------------------------------------------------

pub open spec fn dec_lit(b: Seq<u8>, l: Seq<u8>) -> Option<Seq<u8>> {
    if l.is_prefix_of(b) {
        Some(b.skip(l.len() as int))
    } else {
        None
    }
}

pub proof fn lemma_dec_enc_lit(l: Seq<u8>, rest: Seq<u8>)
    ensures
        dec_lit(l + rest, l) == Some(rest),
{
    assert(l.is_prefix_of(l + rest)) by {
        assert((l + rest).subrange(0, l.len() as int) =~= l);
    }
    assert((l + rest).skip(l.len() as int) =~= rest);
}

pub proof fn lemma_dec_lit_sound(b: Seq<u8>, l: Seq<u8>)
    requires
        dec_lit(b, l) is Some,
    ensures
        b =~= l + dec_lit(b, l)->Some_0,
        dec_lit(b, l)->Some_0.len() + l.len() == b.len(),
{
    assert(b.subrange(0, l.len() as int) == l);
    assert(b =~= b.subrange(0, l.len() as int) + b.skip(l.len() as int));
}

/// Match a structural literal at `pos`.
pub fn expect(b: &Vec<u8>, pos: usize, l: &str) -> (r: Option<usize>)
    requires
        pos <= b@.len(),
    ensures
        match r {
            Some(p) => {
                &&& pos <= p <= b@.len()
                &&& p == pos + lit(l@).len()
                &&& dec_lit(b@.skip(pos as int), lit(l@)) == Some(b@.skip(p as int))
            },
            None => dec_lit(b@.skip(pos as int), lit(l@)) is None,
        },
{
    let lb = l.as_bytes();
    let n = lb.len();
    proof {
        assert(lb@ == lit(l@));
    }
    if n > b.len() - pos {
        proof {
            assert(!lit(l@).is_prefix_of(b@.skip(pos as int)));
        }
        return None;
    }
    let mut i: usize = 0;
    while i < n
        invariant
            b@.len() <= usize::MAX,
            pos <= b@.len(),
            pos + n <= b@.len(),
            i <= n,
            n == lb@.len(),
            lb@ == lit(l@),
            forall|j: int| 0 <= j < i ==> b@.skip(pos as int)[j] == lb@[j],
        decreases n - i,
    {
        let c = vstd::slice::slice_index_get(lb, i);
        assert(pos + i < b@.len());
        if b[pos + i] != *c {
            proof {
                assert(b@.skip(pos as int)[i as int] != lb@[i as int]);
                assert(!lit(l@).is_prefix_of(b@.skip(pos as int)));
            }
            return None;
        }
        i = i + 1;
    }
    proof {
        assert(lit(l@).is_prefix_of(b@.skip(pos as int))) by {
            assert(b@.skip(pos as int).subrange(0, n as int) =~= lit(l@));
        }
        assert(b@.skip(pos as int).skip(n as int) =~= b@.skip(pos as int + n as int));
    }
    Some(pos + n)
}

/// Write a structural literal.
pub fn write_lit(out: &mut Vec<u8>, l: &str)
    ensures
        final(out)@ == old(out)@ + lit(l@),
{
    let mut bs = l.as_bytes_vec();
    out.append(&mut bs);
}

proof fn lemma_ascii_scalar(c: char)
    requires
        c <= '\u{7f}',
    ensures
        vstd::utf8::encode_scalar(c as u32) =~= seq![c as u8],
{
    let v = c as u32;
    assert(vstd::utf8::has_width_1_encoding(v));
    assert(vstd::utf8::leading_byte_width_1(v) == v as u8) by (bit_vector)
        requires
            v < 0x80,
    ;
}

/// The first `k` characters of an ASCII-headed literal appear byte for
/// byte at the head of its UTF-8 bytes.
pub proof fn lemma_lit_prefix(s: Seq<char>, k: int)
    requires
        0 <= k <= s.len(),
        forall|i: int| 0 <= i < k ==> #[trigger] s[i] <= '\u{7f}',
    ensures
        lit(s).len() >= k,
        forall|i: int| 0 <= i < k ==> #[trigger] lit(s)[i] == s[i] as u8,
        k == s.len() ==> lit(s).len() == k,
    decreases k,
{
    if k > 0 {
        lemma_ascii_scalar(s[0]);
        assert(forall|i: int|
            0 <= i < k - 1 ==> #[trigger] s.drop_first()[i] == s[i + 1] && s[i + 1] <= '\u{7f}');
        lemma_lit_prefix(s.drop_first(), k - 1);
        assert(lit(s) =~= seq![s[0] as u8] + lit(s.drop_first()));
        assert forall|i: int| 0 <= i < k implies #[trigger] lit(s)[i] == s[i] as u8 by {
            if i > 0 {
                assert(lit(s)[i] == lit(s.drop_first())[i - 1]);
                assert(s.drop_first()[i - 1] == s[i]);
            }
        }
    } else {
        if k == s.len() {
            assert(lit(s) =~= Seq::<u8>::empty());
        }
    }
}

/// The first byte of a literal whose first character is ASCII.
pub proof fn lemma_lit_head1(s: Seq<char>)
    requires
        s.len() >= 1,
        s[0] <= '\u{7f}',
    ensures
        lit(s).len() >= 1,
        lit(s)[0] == s[0] as u8,
{
    lemma_lit_prefix(s, 1);
}

/// The first two bytes of a literal whose head is ASCII.
pub proof fn lemma_lit_head2(s: Seq<char>)
    requires
        s.len() >= 2,
        s[0] <= '\u{7f}',
        s[1] <= '\u{7f}',
    ensures
        lit(s).len() >= 2,
        lit(s)[0] == s[0] as u8,
        lit(s)[1] == s[1] as u8,
{
    assert forall|i: int| 0 <= i < 2 implies #[trigger] s[i] <= '\u{7f}' by {
        if i == 0 {
        } else {
            assert(s[1] <= '\u{7f}');
        }
    }
    lemma_lit_prefix(s, 2);
}

/// The first three bytes of a literal whose head is ASCII.
pub proof fn lemma_lit_head3(s: Seq<char>)
    requires
        s.len() >= 3,
        s[0] <= '\u{7f}',
        s[1] <= '\u{7f}',
        s[2] <= '\u{7f}',
    ensures
        lit(s).len() >= 3,
        lit(s)[0] == s[0] as u8,
        lit(s)[1] == s[1] as u8,
        lit(s)[2] == s[2] as u8,
{
    assert forall|i: int| 0 <= i < 3 implies #[trigger] s[i] <= '\u{7f}' by {
        if i == 0 {
        } else if i == 1 {
            assert(s[1] <= '\u{7f}');
        } else {
            assert(s[2] <= '\u{7f}');
        }
    }
    lemma_lit_prefix(s, 3);
}

/// A literal cannot be a prefix of bytes that differ from it at their
/// first position; the decoder's branch order is therefore canonical.
pub proof fn lemma_lit_not_prefix0(a: Seq<char>, b: Seq<u8>)
    requires
        a.len() >= 1,
        a[0] <= '\u{7f}',
        b.len() >= 1 ==> b[0] != a[0] as u8,
    ensures
        dec_lit(b, lit(a)) is None,
{
    lemma_lit_head1(a);
    if lit(a).is_prefix_of(b) {
        assert(b[0] == lit(a)[0]);
    }
}

/// A literal cannot be a prefix of bytes that differ from it at their
/// third position.
pub proof fn lemma_lit_not_prefix2(a: Seq<char>, b: Seq<u8>)
    requires
        a.len() >= 3,
        a[0] <= '\u{7f}',
        a[1] <= '\u{7f}',
        a[2] <= '\u{7f}',
        b.len() >= 3 ==> b[2] != a[2] as u8,
    ensures
        dec_lit(b, lit(a)) is None,
{
    lemma_lit_head3(a);
    if lit(a).is_prefix_of(b) {
        assert(b[2] == lit(a)[2]);
    }
}

/// A literal cannot be a prefix of bytes that differ from it at their
/// second position.
pub proof fn lemma_lit_not_prefix1(a: Seq<char>, b: Seq<u8>)
    requires
        a.len() >= 2,
        a[0] <= '\u{7f}',
        a[1] <= '\u{7f}',
        b.len() >= 2 ==> b[1] != a[1] as u8,
    ensures
        dec_lit(b, lit(a)) is None,
{
    lemma_lit_head2(a);
    if lit(a).is_prefix_of(b) {
        assert(b[1] == lit(a)[1]);
    }
}

// ---------------------------------------------------------------------------
// canonical decimal numbers
// ---------------------------------------------------------------------------

pub open spec fn is_digit(c: u8) -> bool {
    48 <= c <= 57
}

/// The canonical decimal digits of a number.
pub open spec fn json_num(v: nat) -> Seq<u8>
    decreases v,
{
    if v < 10 {
        seq![(48 + v) as u8]
    } else {
        json_num(v / 10) + seq![(48 + v % 10) as u8]
    }
}

/// How many leading digits a byte sequence has.
pub open spec fn digit_span(b: Seq<u8>) -> int
    decreases b.len(),
{
    if b.len() == 0 || !is_digit(b[0]) {
        0
    } else {
        1 + digit_span(b.drop_first())
    }
}

/// The value of a digit run, most significant first.
pub open spec fn num_val(ds: Seq<u8>) -> int
    decreases ds.len(),
{
    if ds.len() == 0 {
        0int
    } else {
        num_val(ds.take(ds.len() - 1)) * 10 + (ds.last() - 48)
    }
}

pub open spec fn dec_num(b: Seq<u8>) -> Option<(u64, Seq<u8>)> {
    let k = digit_span(b);
    if k == 0 {
        None
    } else if b[0] == 48 && k > 1 {
        None
    } else if num_val(b.take(k)) > u64::MAX {
        None
    } else {
        Some((num_val(b.take(k)) as u64, b.skip(k)))
    }
}

pub proof fn lemma_json_num_shape(v: nat)
    ensures
        json_num(v).len() >= 1,
        forall|i: int| 0 <= i < json_num(v).len() ==> is_digit(#[trigger] json_num(v)[i]),
        v > 0 ==> json_num(v)[0] != 48,
        v == 0 ==> json_num(v) =~= seq![48u8],
    decreases v,
{
    if v >= 10 {
        lemma_json_num_shape(v / 10);
    }
}

pub proof fn lemma_num_val_json(v: nat)
    ensures
        num_val(json_num(v)) == v,
    decreases v,
{
    assert(num_val(Seq::<u8>::empty()) == 0);
    if v < 10 {
        assert(json_num(v).take(0) =~= Seq::<u8>::empty());
        assert(json_num(v).last() == (48 + v) as u8);
    } else {
        lemma_num_val_json(v / 10);
        lemma_json_num_shape(v / 10);
        let s = json_num(v);
        assert(s.take(s.len() - 1) =~= json_num(v / 10));
        assert(s.last() == (48 + v % 10) as u8);
        vstd::arithmetic::div_mod::lemma_fundamental_div_mod(v as int, 10);
    }
}

pub proof fn lemma_digit_span_concat(ds: Seq<u8>, rest: Seq<u8>)
    requires
        forall|i: int| 0 <= i < ds.len() ==> is_digit(#[trigger] ds[i]),
        rest.len() == 0 || !is_digit(rest[0]),
    ensures
        digit_span(ds + rest) == ds.len(),
    decreases ds.len(),
{
    if ds.len() == 0 {
        assert(ds + rest =~= rest);
        if rest.len() > 0 {
            assert(!is_digit((ds + rest)[0]));
        }
    } else {
        assert((ds + rest).drop_first() =~= ds.drop_first() + rest);
        lemma_digit_span_concat(ds.drop_first(), rest);
    }
}

/// Parsing a number right after its canonical encoding, at a boundary
/// where no digit follows, yields the value back.
pub proof fn lemma_dec_enc_num(v: u64, rest: Seq<u8>)
    requires
        rest.len() == 0 || !is_digit(rest[0]),
    ensures
        dec_num(json_num(v as nat) + rest) == Some((v, rest)),
{
    let ds = json_num(v as nat);
    lemma_json_num_shape(v as nat);
    lemma_digit_span_concat(ds, rest);
    lemma_num_val_json(v as nat);
    let b = ds + rest;
    assert(b.take(ds.len() as int) =~= ds);
    assert(b.skip(ds.len() as int) =~= rest);
    assert(b[0] == ds[0]);
    if v == 0 {
        assert(ds.len() == 1);
    }
}

proof fn lemma_num_val_positive(ds: Seq<u8>)
    requires
        ds.len() >= 1,
        forall|i: int| 0 <= i < ds.len() ==> is_digit(#[trigger] ds[i]),
        ds[0] != 48,
    ensures
        num_val(ds) >= 1,
    decreases ds.len(),
{
    assert(num_val(Seq::<u8>::empty()) == 0);
    assert(is_digit(ds[ds.len() - 1]));
    if ds.len() == 1 {
        assert(ds.take(0) =~= Seq::<u8>::empty());
    } else {
        let front = ds.take(ds.len() - 1);
        assert(front[0] == ds[0]);
        assert(forall|i: int| 0 <= i < front.len() ==> is_digit(#[trigger] front[i]));
        lemma_num_val_positive(front);
        assert(num_val(ds) == num_val(front) * 10 + (ds.last() - 48));
    }
}

proof fn lemma_num_val_nonneg(ds: Seq<u8>)
    requires
        forall|i: int| 0 <= i < ds.len() ==> is_digit(#[trigger] ds[i]),
    ensures
        num_val(ds) >= 0,
    decreases ds.len(),
{
    assert(num_val(Seq::<u8>::empty()) == 0);
    if ds.len() > 0 {
        let front = ds.take(ds.len() - 1);
        lemma_num_val_nonneg(front);
        assert(is_digit(ds[ds.len() - 1]));
        assert(num_val(front) * 10 >= 0) by (nonlinear_arith)
            requires
                num_val(front) >= 0,
        ;
    }
}

/// The canonical digits of a digit run's value are the run itself, when
/// the run has no leading zero.
pub proof fn lemma_json_num_canon(ds: Seq<u8>)
    requires
        ds.len() >= 1,
        forall|i: int| 0 <= i < ds.len() ==> is_digit(#[trigger] ds[i]),
        ds.len() > 1 ==> ds[0] != 48,
    ensures
        json_num(num_val(ds) as nat) =~= ds,
    decreases ds.len(),
{
    assert(num_val(Seq::<u8>::empty()) == 0);
    if ds.len() == 1 {
        assert(ds.take(0) =~= Seq::<u8>::empty());
        assert(ds.last() == ds[0]);
        assert(is_digit(ds[0]));
        assert(num_val(ds) == ds[0] - 48);
    } else {
        let front = ds.take(ds.len() - 1);
        assert(forall|i: int| 0 <= i < front.len() ==> is_digit(#[trigger] front[i]));
        assert(is_digit(ds[ds.len() - 1]));
        let d = (ds.last() - 48) as nat;
        lemma_json_num_canon(front);
        lemma_num_val_positive(front);
        lemma_num_val_nonneg(ds);
        let n = num_val(ds);
        assert(n == num_val(front) * 10 + d);
        assert(n / 10 == num_val(front) && n % 10 == d) by (nonlinear_arith)
            requires
                n == num_val(front) * 10 + d,
                d < 10,
        ;
        assert(n >= 10);
        assert(json_num(n as nat) =~= json_num((num_val(front)) as nat) + seq![ds.last()]);
    }
}

/// A successful number parse consumed exactly the canonical encoding of
/// its result.
pub proof fn lemma_dec_num_sound(b: Seq<u8>)
    requires
        dec_num(b) is Some,
    ensures
        b =~= json_num(dec_num(b)->Some_0.0 as nat) + dec_num(b)->Some_0.1,
        dec_num(b)->Some_0.1.len() < b.len(),
{
    let k = digit_span(b);
    lemma_digit_span_le(b);
    let ds = b.take(k);
    assert(forall|i: int| 0 <= i < k ==> is_digit(#[trigger] b[i])) by {
        lemma_digit_span_digits(b);
    }
    assert(forall|i: int| 0 <= i < ds.len() ==> is_digit(#[trigger] ds[i]));
    assert(k >= 1);
    assert(ds[0] == b[0]);
    lemma_num_val_nonneg(ds);
    lemma_json_num_canon(ds);
    assert(json_num(dec_num(b)->Some_0.0 as nat) == ds);
    assert(b =~= ds + b.skip(k));
}

proof fn lemma_digit_span_le(b: Seq<u8>)
    ensures
        0 <= digit_span(b) <= b.len(),
    decreases b.len(),
{
    if b.len() > 0 && is_digit(b[0]) {
        lemma_digit_span_le(b.drop_first());
    }
}

proof fn lemma_digit_span_digits(b: Seq<u8>)
    ensures
        forall|i: int| 0 <= i < digit_span(b) ==> is_digit(#[trigger] b[i]),
    decreases b.len(),
{
    lemma_digit_span_le(b);
    if b.len() > 0 && is_digit(b[0]) {
        lemma_digit_span_digits(b.drop_first());
        lemma_digit_span_le(b.drop_first());
        assert forall|i: int| 0 <= i < digit_span(b) implies is_digit(#[trigger] b[i]) by {
            if i > 0 {
                assert(0 <= i - 1 < digit_span(b.drop_first()));
                assert(is_digit(b.drop_first()[i - 1]));
                assert(b.drop_first()[i - 1] == b[i]);
            }
        }
    }
}

/// A longer digit prefix never has a smaller value.
proof fn lemma_num_val_monotone(ds: Seq<u8>, i: int)
    requires
        0 <= i <= ds.len(),
        forall|j: int| 0 <= j < ds.len() ==> is_digit(#[trigger] ds[j]),
    ensures
        num_val(ds.take(i)) <= num_val(ds),
    decreases ds.len() - i,
{
    if i < ds.len() {
        let t = ds.take(i + 1);
        assert(t.len() == i + 1);
        assert(t.take(i) =~= ds.take(i));
        assert(t.last() == ds[i]);
        assert(is_digit(ds[i]));
        assert(num_val(t) == num_val(ds.take(i)) * 10 + (t.last() - 48));
        assert(forall|j: int| 0 <= j < ds.take(i).len() ==> is_digit(#[trigger] ds.take(i)[j]));
        lemma_num_val_nonneg(ds.take(i));
        assert(num_val(ds.take(i)) <= num_val(t)) by (nonlinear_arith)
            requires
                num_val(t) == num_val(ds.take(i)) * 10 + (t.last() - 48),
                t.last() >= 48,
                num_val(ds.take(i)) >= 0,
        ;
        lemma_num_val_monotone(ds, i + 1);
        assert(ds.take(i + 1) == t);
    } else {
        assert(ds.take(i) =~= ds);
    }
}

/// The length of the digit run starting at `pos`.
fn digit_span_at(b: &Vec<u8>, pos: usize) -> (k: usize)
    requires
        pos <= b@.len(),
    ensures
        pos + k <= b@.len(),
        k == digit_span(b@.skip(pos as int)),
    decreases b@.len() - pos,
{
    if pos < b.len() {
        let c = b[pos];
        if 48 <= c && c <= 57 {
            let k2 = digit_span_at(b, pos + 1);
            proof {
                assert(b@.skip(pos as int).drop_first() =~= b@.skip(pos as int + 1));
            }
            k2 + 1
        } else {
            0
        }
    } else {
        proof {
            assert(b@.skip(pos as int).len() == 0);
        }
        0
    }
}

/// Read a canonical decimal number at `pos`.
pub fn read_num(b: &Vec<u8>, pos: usize) -> (r: Option<(u64, usize)>)
    requires
        pos <= b@.len(),
    ensures
        match r {
            Some(vp) => {
                &&& pos < vp.1 <= b@.len()
                &&& dec_num(b@.skip(pos as int)) == Some((vp.0, b@.skip(vp.1 as int)))
            },
            None => dec_num(b@.skip(pos as int)) is None,
        },
{
    let ghost tail = b@.skip(pos as int);
    let blen = b.len();
    let k = digit_span_at(b, pos);
    if k == 0 {
        return None;
    }
    if b[pos] == 48 && k > 1 {
        return None;
    }
    // accumulate the value, watching for overflow
    let ghost ds = tail.take(k as int);
    proof {
        assert(num_val(Seq::<u8>::empty()) == 0);
        assert(ds.take(0) =~= Seq::<u8>::empty());
        lemma_digit_span_digits(tail);
        lemma_digit_span_le(tail);
    }
    let mut acc: u64 = 0;
    let mut i: usize = 0;
    while i < k
        invariant
            b@.len() <= usize::MAX,
            pos + k <= b@.len(),
            blen == b@.len(),
            i <= k,
            tail == b@.skip(pos as int),
            ds == tail.take(k as int),
            digit_span(tail) == k,
            k > 0,
            forall|j: int| 0 <= j < k ==> is_digit(#[trigger] tail[j]),
            acc == num_val(ds.take(i as int)),
        decreases k - i,
    {
        proof {
            assert(is_digit(tail[i as int]));
            assert(tail[i as int] == b@[pos as int + i]);
        }
        let d = b[pos + i] - 48;
        proof {
            assert(ds.take(i as int + 1).len() == i + 1);
            assert(ds.take(i as int + 1).take(i as int) =~= ds.take(i as int));
            assert(ds.take(i as int + 1).last() == ds[i as int]);
            assert(ds[i as int] == tail[i as int]);
        }
        if acc > (u64::MAX - (d as u64)) / 10 {
            proof {
                let nv = num_val(ds.take(i as int + 1));
                assert(nv == acc * 10 + d);
                assert(nv > u64::MAX) by (nonlinear_arith)
                    requires
                        nv == acc * 10 + d,
                        acc > (u64::MAX - (d as u64)) / 10,
                        acc <= u64::MAX,
                        d < 10,
                ;
                lemma_num_val_monotone(ds, i as int + 1);
                assert(ds.take(ds.len() as int) =~= ds);
                assert(num_val(ds) > u64::MAX);
            }
            return None;
        }
        proof {
            assert(acc * 10 + d <= u64::MAX) by (nonlinear_arith)
                requires
                    acc <= (u64::MAX - (d as u64)) / 10,
                    d < 10,
                    acc >= 0,
            ;
        }
        acc = acc * 10 + (d as u64);
        i = i + 1;
    }
    proof {
        assert(ds.take(k as int) =~= ds);
    }
    Some((acc, pos + k))
}

/// Write the canonical decimal digits of `v`.
pub fn write_num(out: &mut Vec<u8>, v: u64)
    ensures
        final(out)@ == old(out)@ + json_num(v as nat),
    decreases v,
{
    if v < 10 {
        out.push(48 + (v as u8));
        proof {
            assert(out@ =~= old(out)@ + json_num(v as nat));
        }
    } else {
        write_num(out, v / 10);
        out.push(48 + ((v % 10) as u8));
        proof {
            assert(out@ =~= old(out)@ + json_num(v as nat));
        }
    }
}

// ---------------------------------------------------------------------------
// strings of printable ASCII, with `"` and `\` escaped
// ---------------------------------------------------------------------------

pub open spec fn esc(c: char) -> Seq<u8> {
    if c == '"' {
        seq![92u8, 34u8]
    } else if c == '\\' {
        seq![92u8, 92u8]
    } else {
        seq![c as u8]
    }
}

pub open spec fn json_str_body(s: Seq<char>) -> Seq<u8>
    decreases s.len(),
{
    if s.len() == 0 {
        Seq::<u8>::empty()
    } else {
        esc(s[0]) + json_str_body(s.drop_first())
    }
}

/// A JSON string value: quoted, escaped body.
pub open spec fn json_str(s: Seq<char>) -> Seq<u8> {
    seq![34u8] + json_str_body(s) + seq![34u8]
}

/// Parse an escaped string body up to and including the closing quote.
pub open spec fn dec_str_body(b: Seq<u8>) -> Option<(Seq<char>, Seq<u8>)>
    decreases b.len(),
{
    if b.len() == 0 {
        None
    } else if b[0] == 34 {
        Some((Seq::<char>::empty(), b.skip(1)))
    } else if b[0] == 92 {
        if b.len() >= 2 && (b[1] == 34 || b[1] == 92) {
            match dec_str_body(b.skip(2)) {
                Some((s, r)) => Some((seq![b[1] as char] + s, r)),
                None => None,
            }
        } else {
            None
        }
    } else if 0x20 <= b[0] <= 0x7e {
        match dec_str_body(b.skip(1)) {
            Some((s, r)) => Some((seq![b[0] as char] + s, r)),
            None => None,
        }
    } else {
        None
    }
}

pub open spec fn dec_str(b: Seq<u8>) -> Option<(Seq<char>, Seq<u8>)> {
    if b.len() >= 1 && b[0] == 34 {
        dec_str_body(b.skip(1))
    } else {
        None
    }
}

pub proof fn lemma_dec_enc_str_body(s: Seq<char>, rest: Seq<u8>)
    requires
        wf_text(s),
    ensures
        dec_str_body(json_str_body(s) + seq![34u8] + rest) == Some((s, rest)),
    decreases s.len(),
{
    let b = json_str_body(s) + seq![34u8] + rest;
    if s.len() == 0 {
        assert(b[0] == 34);
        assert(b.skip(1) =~= rest);
    } else {
        let c = s[0];
        assert(' ' <= c <= '~');
        lemma_dec_enc_str_body(s.drop_first(), rest);
        let sub = json_str_body(s.drop_first()) + seq![34u8] + rest;
        if c == '"' {
            assert(b[0] == 92 && b[1] == 34);
            assert(b.skip(2) =~= sub);
            assert(seq![b[1] as char] + s.drop_first() =~= s);
        } else if c == '\\' {
            assert(b[0] == 92 && b[1] == 92);
            assert(b.skip(2) =~= sub);
            assert(seq![b[1] as char] + s.drop_first() =~= s);
        } else {
            assert(b[0] == c as u8);
            assert(0x20 <= b[0] <= 0x7e);
            assert(b[0] != 34 && b[0] != 92);
            assert(b.skip(1) =~= sub);
            assert(seq![b[0] as char] + s.drop_first() =~= s);
        }
    }
}

pub proof fn lemma_dec_enc_str(s: Seq<char>, rest: Seq<u8>)
    requires
        wf_text(s),
    ensures
        dec_str(json_str(s) + rest) == Some((s, rest)),
{
    let b = json_str(s) + rest;
    assert(b[0] == 34);
    assert(b.skip(1) =~= json_str_body(s) + seq![34u8] + rest);
    lemma_dec_enc_str_body(s, rest);
}

pub proof fn lemma_dec_str_body_sound(b: Seq<u8>)
    requires
        dec_str_body(b) is Some,
    ensures
        wf_text(dec_str_body(b)->Some_0.0),
        b =~= json_str_body(dec_str_body(b)->Some_0.0) + seq![34u8] + dec_str_body(b)->Some_0.1,
        dec_str_body(b)->Some_0.1.len() < b.len(),
    decreases b.len(),
{
    let (s, r) = dec_str_body(b)->Some_0;
    if b[0] == 34 {
        assert(b =~= seq![34u8] + b.skip(1));
        assert(json_str_body(s) =~= Seq::<u8>::empty());
    } else if b[0] == 92 {
        lemma_dec_str_body_sound(b.skip(2));
        let (s2, _) = dec_str_body(b.skip(2))->Some_0;
        assert(s == seq![b[1] as char] + s2);
        assert(s.drop_first() =~= s2);
        assert(s[0] == b[1] as char);
        assert(b[1] == 34 || b[1] == 92);
        assert(esc(s[0]) =~= seq![92u8, b[1]]);
        assert(b =~= seq![b[0], b[1]] + b.skip(2));
        assert(b =~= esc(s[0]) + (json_str_body(s2) + seq![34u8] + r));
        assert(json_str_body(s) =~= esc(s[0]) + json_str_body(s2));
    } else {
        lemma_dec_str_body_sound(b.skip(1));
        let (s2, _) = dec_str_body(b.skip(1))->Some_0;
        assert(s == seq![b[0] as char] + s2);
        assert(s.drop_first() =~= s2);
        assert(s[0] == b[0] as char);
        assert(' ' <= s[0] <= '~');
        assert(s[0] != '"' && s[0] != '\\');
        assert(esc(s[0]) =~= seq![b[0]]);
        assert(b =~= seq![b[0]] + b.skip(1));
        assert(b =~= esc(s[0]) + (json_str_body(s2) + seq![34u8] + r));
        assert(json_str_body(s) =~= esc(s[0]) + json_str_body(s2));
    }
}

pub proof fn lemma_dec_str_sound(b: Seq<u8>)
    requires
        dec_str(b) is Some,
    ensures
        wf_text(dec_str(b)->Some_0.0),
        b =~= json_str(dec_str(b)->Some_0.0) + dec_str(b)->Some_0.1,
        dec_str(b)->Some_0.1.len() < b.len(),
{
    lemma_dec_str_body_sound(b.skip(1));
    assert(b =~= seq![34u8] + b.skip(1));
}

/// Read a quoted, escaped string at `pos`.
pub fn read_str(b: &Vec<u8>, pos: usize) -> (r: Option<(String, usize)>)
    requires
        pos <= b@.len(),
    ensures
        match r {
            Some(vp) => {
                &&& pos < vp.1 <= b@.len()
                &&& vp.0@.len() <= b@.len()
                &&& dec_str(b@.skip(pos as int)) == Some((vp.0@, b@.skip(vp.1 as int)))
            },
            None => dec_str(b@.skip(pos as int)) is None,
        },
{
    let blen = b.len();
    if pos >= blen || b[pos] != 34 {
        return None;
    }
    let mut out: Vec<u8> = Vec::new();
    let mut i: usize = pos + 1;
    proof {
        assert(b@.skip(pos as int)[0] == 34);
        assert(b@.skip(pos as int).skip(1) =~= b@.skip(pos as int + 1));
    }
    loop
        invariant
            b@.len() <= usize::MAX,
            blen == b@.len(),
            pos + 1 <= i <= b@.len(),
            printable_bytes(out@),
            out@.len() <= i,
            b@[pos as int] == 34,
            dec_str(b@.skip(pos as int)) == dec_str_body(b@.skip(pos as int + 1)),
            dec_str_body(b@.skip(pos as int + 1)) == (match dec_str_body(b@.skip(i as int)) {
                Some((s, r)) => Some((bytes_chars(out@) + s, r)),
                None => None::<(Seq<char>, Seq<u8>)>,
            }),
        decreases b@.len() - i,
    {
        if i >= blen {
            proof {
                assert(b@.skip(i as int).len() == 0);
            }
            return None;
        }
        let c = b[i];
        let ghost tail = b@.skip(i as int);
        if c == 34 {
            proof {
                assert(tail.skip(1) =~= b@.skip(i as int + 1));
                assert(bytes_chars(out@) + Seq::<char>::empty() =~= bytes_chars(out@));
                assert(b@.skip(pos as int)[0] == 34);
                assert(b@.skip(pos as int).skip(1) =~= b@.skip(pos as int + 1));
            }
            let s = ascii_string(out);
            return Some((s, i + 1));
        } else if c == 92 {
            if i + 1 >= blen {
                proof {
                    assert(dec_str_body(tail) is None);
                }
                return None;
            }
            let c2 = b[i + 1];
            if c2 == 34 || c2 == 92 {
                let ghost prev = out@;
                out.push(c2);
                proof {
                    assert(tail[1] == c2);
                    assert(tail.skip(2) =~= b@.skip(i as int + 2));
                    assert(bytes_chars(out@) =~= bytes_chars(prev) + seq![c2 as char]);
                    if dec_str_body(b@.skip(i as int + 2)) is Some {
                        let s2 = dec_str_body(b@.skip(i as int + 2))->Some_0.0;
                        assert((bytes_chars(prev) + seq![c2 as char]) + s2 =~= bytes_chars(prev) + (
                        seq![c2 as char] + s2));
                    }
                }
                i = i + 2;
            } else {
                proof {
                    assert(dec_str_body(tail) is None);
                }
                return None;
            }
        } else if 0x20 <= c && c <= 0x7e {
            let ghost prev = out@;
            out.push(c);
            proof {
                assert(tail[0] == c);
                assert(tail.skip(1) =~= b@.skip(i as int + 1));
                assert(bytes_chars(out@) =~= bytes_chars(prev) + seq![c as char]);
                if dec_str_body(b@.skip(i as int + 1)) is Some {
                    let s2 = dec_str_body(b@.skip(i as int + 1))->Some_0.0;
                    assert((bytes_chars(prev) + seq![c as char]) + s2 =~= bytes_chars(prev) + (seq![
                        c as char] + s2));
                }
            }
            i = i + 1;
        } else {
            proof {
                assert(dec_str_body(tail) is None);
            }
            return None;
        }
    }
}

/// Write `s` as a quoted, escaped JSON string.
pub fn write_str(out: &mut Vec<u8>, s: &str)
    requires
        wf_text(s@),
    ensures
        final(out)@ == old(out)@ + json_str(s@),
{
    out.push(34);
    let n = s.unicode_len();
    let mut i: usize = 0;
    while i < n
        invariant
            wf_text(s@),
            n == s@.len(),
            i <= n,
            out@ == old(out)@ + seq![34u8] + json_str_body(s@.take(i as int)),
        decreases n - i,
    {
        let c = s.get_char(i);
        if c == '"' {
            out.push(92);
            out.push(34);
        } else if c == '\\' {
            out.push(92);
            out.push(92);
        } else {
            proof {
                assert(' ' <= s@[i as int] <= '~');
            }
            out.push(c as u8);
        }
        proof {
            lemma_json_str_body_snoc(s@.take(i as int + 1));
            assert(s@.take(i as int + 1).take(i as int) =~= s@.take(i as int));
            assert(s@.take(i as int + 1).last() == s@[i as int]);
            assert(out@ =~= old(out)@ + seq![34u8] + json_str_body(s@.take(i as int + 1)));
        }
        i = i + 1;
    }
    out.push(34);
    proof {
        assert(s@.take(n as int) =~= s@);
        assert(out@ =~= old(out)@ + json_str(s@));
    }
}

proof fn lemma_json_str_body_snoc(s: Seq<char>)
    requires
        s.len() >= 1,
    ensures
        json_str_body(s) =~= json_str_body(s.take(s.len() - 1)) + esc(s.last()),
    decreases s.len(),
{
    if s.len() == 1 {
        assert(s.drop_first() =~= Seq::<char>::empty());
        assert(s.take(0) =~= Seq::<char>::empty());
    } else {
        lemma_json_str_body_snoc(s.drop_first());
        assert(s.drop_first().take(s.drop_first().len() - 1) =~= s.take(s.len() - 1).drop_first());
        assert(s.drop_first().last() == s.last());
        assert(s.take(s.len() - 1)[0] == s[0]);
        assert(json_str_body(s) =~= esc(s[0]) + json_str_body(s.drop_first()));
        assert(esc(s[0]) + (json_str_body(s.take(s.len() - 1).drop_first()) + esc(s.last())) =~= (
        esc(s[0]) + json_str_body(s.take(s.len() - 1).drop_first())) + esc(s.last()));
    }
}

} // verus!

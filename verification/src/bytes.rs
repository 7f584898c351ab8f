//! Primitives for the compact binary encoding of game state.
//!
//! Every value is written as a fixed-width or length-prefixed byte run, so
//! that the byte stream parses back unambiguously.  For each shape there is
//! a spec-level encoder, a spec-level parser that consumes from the front of
//! a byte sequence and returns the remainder, exec code proved against the
//! spec pair, and the two lemmas the state codec rests on: parsing inverts
//! encoding, and a successful parse pins the consumed bytes down exactly.

use vstd::prelude::*;

verus! {

use vstd::bytes::lemma_auto_spec_u64_to_from_le_bytes;
use vstd::bytes::spec_u64_from_le_bytes;
use vstd::bytes::spec_u64_to_le_bytes;
use vstd::bytes::u64_from_le_bytes;
use vstd::bytes::u64_to_le_bytes;
use vstd::slice::slice_subrange;
use vstd::string::StrSliceExecFns;

// ---------------------------------------------------------------------------
// u64, little endian, eight bytes
// ---------------------------------------------------------------------------

pub open spec fn enc_u64(v: u64) -> Seq<u8> {
    spec_u64_to_le_bytes(v)
}

pub open spec fn dec_u64(b: Seq<u8>) -> Option<(u64, Seq<u8>)> {
    if b.len() >= 8 {
        Some((spec_u64_from_le_bytes(b.take(8)), b.skip(8)))
    } else {
        None
    }
}

pub proof fn lemma_enc_u64_len(v: u64)
    ensures
        enc_u64(v).len() == 8,
{
    lemma_auto_spec_u64_to_from_le_bytes();
}

/// Parsing a `u64` right after it was encoded yields the value back.
pub proof fn lemma_dec_enc_u64(v: u64, rest: Seq<u8>)
    ensures
        enc_u64(v).len() == 8,
        dec_u64(enc_u64(v) + rest) == Some((v, rest)),
{
    lemma_auto_spec_u64_to_from_le_bytes();
    assert((enc_u64(v) + rest).take(8) =~= enc_u64(v));
    assert((enc_u64(v) + rest).skip(8) =~= rest);
}

/// A successful `u64` parse consumed exactly the encoding of its result.
pub proof fn lemma_dec_u64_sound(b: Seq<u8>)
    requires
        dec_u64(b) is Some,
    ensures
        b =~= enc_u64(dec_u64(b)->Some_0.0) + dec_u64(b)->Some_0.1,
        dec_u64(b)->Some_0.1.len() + 8 == b.len(),
{
    lemma_auto_spec_u64_to_from_le_bytes();
    let v = dec_u64(b)->Some_0.0;
    assert(spec_u64_to_le_bytes(spec_u64_from_le_bytes(b.take(8))) == b.take(8));
    assert(b =~= b.take(8) + b.skip(8));
}

pub fn write_u64(out: &mut Vec<u8>, v: u64)
    ensures
        final(out)@ == old(out)@ + enc_u64(v),
{
    let mut bs = u64_to_le_bytes(v);
    out.append(&mut bs);
}

pub fn read_u64(b: &Vec<u8>, pos: usize) -> (r: Option<(u64, usize)>)
    requires
        pos <= b@.len(),
    ensures
        match r {
            Some(vp) => {
                &&& pos + 8 == vp.1
                &&& vp.1 <= b@.len()
                &&& dec_u64(b@.skip(pos as int)) == Some((vp.0, b@.skip(vp.1 as int)))
            },
            None => dec_u64(b@.skip(pos as int)) is None,
        },
{
    if b.len() - pos >= 8 {
        let s = slice_subrange(b.as_slice(), pos, pos + 8);
        let v = u64_from_le_bytes(s);
        proof {
            assert(b@.skip(pos as int).take(8) =~= b@.subrange(pos as int, pos as int + 8));
            assert(b@.skip(pos as int).skip(8) =~= b@.skip(pos as int + 8));
        }
        Some((v, pos + 8))
    } else {
        None
    }
}

// ---------------------------------------------------------------------------
// single bytes (enum tags, cell values)
// ---------------------------------------------------------------------------

pub open spec fn enc_byte(v: u8) -> Seq<u8> {
    seq![v]
}

pub open spec fn dec_byte(b: Seq<u8>) -> Option<(u8, Seq<u8>)> {
    if b.len() >= 1 {
        Some((b[0], b.skip(1)))
    } else {
        None
    }
}

pub proof fn lemma_dec_enc_byte(v: u8, rest: Seq<u8>)
    ensures
        dec_byte(enc_byte(v) + rest) == Some((v, rest)),
{
    assert((enc_byte(v) + rest).skip(1) =~= rest);
}

pub proof fn lemma_dec_byte_sound(b: Seq<u8>)
    requires
        dec_byte(b) is Some,
    ensures
        b =~= enc_byte(dec_byte(b)->Some_0.0) + dec_byte(b)->Some_0.1,
        dec_byte(b)->Some_0.1.len() + 1 == b.len(),
{
    assert(b =~= seq![b[0]] + b.skip(1));
}

pub fn write_byte(out: &mut Vec<u8>, v: u8)
    ensures
        final(out)@ == old(out)@ + enc_byte(v),
{
    out.push(v);
    proof {
        assert(out@ =~= old(out)@ + enc_byte(v));
    }
}

pub fn read_byte(b: &Vec<u8>, pos: usize) -> (r: Option<(u8, usize)>)
    requires
        pos <= b@.len(),
    ensures
        match r {
            Some(vp) => {
                &&& pos + 1 == vp.1
                &&& vp.1 <= b@.len()
                &&& dec_byte(b@.skip(pos as int)) == Some((vp.0, b@.skip(vp.1 as int)))
            },
            None => dec_byte(b@.skip(pos as int)) is None,
        },
{
    if b.len() - pos >= 1 {
        let v = b[pos];
        proof {
            assert(b@.skip(pos as int)[0] == b@[pos as int]);
            assert(b@.skip(pos as int).skip(1) =~= b@.skip(pos as int + 1));
        }
        Some((v, pos + 1))
    } else {
        None
    }
}

// ---------------------------------------------------------------------------
// printable-ASCII text, length-prefixed
// ---------------------------------------------------------------------------

/// Text carried inside game state is printable ASCII, one byte per char.
pub open spec fn wf_text(s: Seq<char>) -> bool {
    forall|i: int| 0 <= i < s.len() ==> ' ' <= #[trigger] s[i] <= '~'
}

pub open spec fn text_bytes(s: Seq<char>) -> Seq<u8> {
    Seq::new(s.len(), |i: int| s[i] as u8)
}

pub open spec fn enc_text(s: Seq<char>) -> Seq<u8> {
    enc_u64(s.len() as u64) + text_bytes(s)
}

pub open spec fn bytes_chars(b: Seq<u8>) -> Seq<char> {
    Seq::new(b.len(), |i: int| b[i] as char)
}

pub open spec fn printable_bytes(b: Seq<u8>) -> bool {
    forall|i: int| 0 <= i < b.len() ==> 0x20 <= #[trigger] b[i] <= 0x7e
}

pub open spec fn dec_text(b: Seq<u8>) -> Option<(Seq<char>, Seq<u8>)> {
    match dec_u64(b) {
        None => None,
        Some((n, r)) => if n <= r.len() && printable_bytes(r.take(n as int)) {
            Some((bytes_chars(r.take(n as int)), r.skip(n as int)))
        } else {
            None
        },
    }
}

pub proof fn lemma_text_bytes_chars(s: Seq<char>)
    requires
        wf_text(s),
    ensures
        printable_bytes(text_bytes(s)),
        bytes_chars(text_bytes(s)) =~= s,
{
    assert forall|i: int| 0 <= i < s.len() implies 0x20 <= #[trigger] text_bytes(s)[i] <= 0x7e by {
        assert(' ' <= s[i] <= '~');
    }
    assert forall|i: int| 0 <= i < s.len() implies bytes_chars(text_bytes(s))[i] == s[i] by {
        assert(' ' <= s[i] <= '~');
    }
}

pub proof fn lemma_dec_enc_text(s: Seq<char>, rest: Seq<u8>)
    requires
        wf_text(s),
        s.len() <= u64::MAX,
    ensures
        dec_text(enc_text(s) + rest) == Some((s, rest)),
{
    let n = s.len() as u64;
    lemma_dec_enc_u64(n, text_bytes(s) + rest);
    assert(enc_text(s) + rest =~= enc_u64(n) + (text_bytes(s) + rest));
    let r = (text_bytes(s) + rest);
    assert(r.take(n as int) =~= text_bytes(s));
    assert(r.skip(n as int) =~= rest);
    lemma_text_bytes_chars(s);
}

// ---------------------------------------------------------------------------
// homogeneous runs of values
// ---------------------------------------------------------------------------

/// Each element's encoding, in order.
pub open spec fn enc_list<T>(s: Seq<T>, f: spec_fn(T) -> Seq<u8>) -> Seq<u8>
    decreases s.len(),
{
    if s.len() == 0 {
        Seq::<u8>::empty()
    } else {
        f(s[0]) + enc_list(s.drop_first(), f)
    }
}

/// Parse exactly `n` elements.
pub open spec fn dec_list<T>(b: Seq<u8>, n: nat, g: spec_fn(Seq<u8>) -> Option<(T, Seq<u8>)>) -> Option<
    (Seq<T>, Seq<u8>),
>
    decreases n,
{
    if n == 0 {
        Some((Seq::<T>::empty(), b))
    } else {
        match g(b) {
            None => None,
            Some((v, r)) => match dec_list(r, (n - 1) as nat, g) {
                None => None,
                Some((vs, r2)) => Some((seq![v] + vs, r2)),
            },
        }
    }
}

pub proof fn lemma_enc_list_snoc<T>(s: Seq<T>, x: T, f: spec_fn(T) -> Seq<u8>)
    ensures
        enc_list(s.push(x), f) =~= enc_list(s, f) + f(x),
    decreases s.len(),
{
    if s.len() == 0 {
        assert(enc_list(Seq::<T>::empty(), f) =~= Seq::<u8>::empty());
        assert(s =~= Seq::<T>::empty());
        assert(s.push(x).drop_first() =~= Seq::<T>::empty());
        assert(s.push(x)[0] == x);
        assert(enc_list(s.push(x), f) =~= f(x) + enc_list(Seq::<T>::empty(), f));
    } else {
        lemma_enc_list_snoc(s.drop_first(), x, f);
        assert(s.push(x).drop_first() =~= s.drop_first().push(x));
        assert(s.push(x)[0] == s[0]);
        assert(f(s[0]) + (enc_list(s.drop_first(), f) + f(x)) =~= (f(s[0]) + enc_list(
            s.drop_first(),
            f,
        )) + f(x));
    }
}

/// Parsing a run right after it was encoded yields the elements back.
pub proof fn lemma_dec_enc_list<T>(
    s: Seq<T>,
    rest: Seq<u8>,
    f: spec_fn(T) -> Seq<u8>,
    g: spec_fn(Seq<u8>) -> Option<(T, Seq<u8>)>,
)
    requires
        forall|v: T, r2: Seq<u8>| s.contains(v) ==> #[trigger] g(f(v) + r2) == Some((v, r2)),
    ensures
        dec_list(enc_list(s, f) + rest, s.len(), g) == Some((s, rest)),
    decreases s.len(),
{
    if s.len() == 0 {
        assert(enc_list(s, f) + rest =~= rest);
    } else {
        assert(s.contains(s[0]));
        assert(enc_list(s, f) + rest =~= f(s[0]) + (enc_list(s.drop_first(), f) + rest));
        assert(forall|v: T, r2: Seq<u8>|
            s.drop_first().contains(v) ==> s.contains(v) && #[trigger] g(f(v) + r2) == Some(
                (v, r2),
            ));
        lemma_dec_enc_list(s.drop_first(), rest, f, g);
        assert(seq![s[0]] + s.drop_first() =~= s);
    }
}

/// A successful run parse consumed exactly the encoding of its elements.
pub proof fn lemma_dec_list_sound<T>(
    b: Seq<u8>,
    n: nat,
    f: spec_fn(T) -> Seq<u8>,
    g: spec_fn(Seq<u8>) -> Option<(T, Seq<u8>)>,
)
    requires
        forall|bb: Seq<u8>| #[trigger] g(bb) matches Some(vr) ==> bb =~= f(vr.0) + vr.1 && vr.1.len()
            < bb.len(),
        dec_list(b, n, g) is Some,
    ensures
        ({
            let (vs, r) = dec_list(b, n, g)->Some_0;
            &&& vs.len() == n
            &&& b =~= enc_list(vs, f) + r
            &&& r.len() + n <= b.len()
        }),
    decreases n,
{
    if n > 0 {
        let (v, r1) = g(b)->Some_0;
        lemma_dec_list_sound(r1, (n - 1) as nat, f, g);
        let (vs, r) = dec_list(r1, (n - 1) as nat, g)->Some_0;
        assert((seq![v] + vs).drop_first() =~= vs);
        assert((seq![v] + vs)[0] == v);
        assert(b =~= f(v) + (enc_list(vs, f) + r));
        assert(f(v) + (enc_list(vs, f) + r) =~= (f(v) + enc_list(vs, f)) + r);
    }
}

/// A run of more elements than there are bytes cannot parse.
pub proof fn lemma_dec_list_too_long<T>(
    b: Seq<u8>,
    n: nat,
    g: spec_fn(Seq<u8>) -> Option<(T, Seq<u8>)>,
)
    requires
        forall|bb: Seq<u8>| #[trigger] g(bb) matches Some(vr) ==> vr.1.len() < bb.len(),
        n > b.len(),
    ensures
        dec_list(b, n, g) is None,
    decreases n,
{
    if n > 0 {
        match g(b) {
            None => {},
            Some((v, r)) => {
                lemma_dec_list_too_long(r, (n - 1) as nat, g);
            },
        }
    }
}

/// Relies on `String::from_utf8`: it succeeds exactly on valid UTF-8 and the
/// returned string holds the given bytes.
#[verifier::external_body]
fn string_from_utf8(b: Vec<u8>) -> (r: Option<String>)
    ensures
        match r {
            Some(s) => vstd::utf8::encode_utf8(s@) == b@,
            None => !vstd::utf8::valid_utf8(b@),
        },
{
    String::from_utf8(b).ok()
}

pub fn write_text(out: &mut Vec<u8>, s: &str)
    requires
        wf_text(s@),
    ensures
        final(out)@ == old(out)@ + enc_text(s@),
{
    proof {
        broadcast use vstd::utf8::is_ascii_chars_encode_utf8;

        assert(vstd::utf8::is_ascii_chars(s@)) by {
            assert forall|i: int| 0 <= i < s@.len() implies '\0' <= #[trigger] s@[i]
                <= '\u{7f}' by {
                assert(' ' <= s@[i] <= '~');
            }
        }
    }
    let mut bs = s.as_bytes_vec();
    let n: u64 = bs.len() as u64;
    write_u64(out, n);
    proof {
        assert(bs@ =~= text_bytes(s@));
    }
    out.append(&mut bs);
    proof {
        assert(out@ =~= old(out)@ + enc_text(s@));
    }
}

pub fn read_text(b: &Vec<u8>, pos: usize) -> (r: Option<(String, usize)>)
    requires
        pos <= b@.len(),
    ensures
        match r {
            Some(vp) => {
                &&& pos < vp.1 <= b@.len()
                &&& dec_text(b@.skip(pos as int)) == Some((vp.0@, b@.skip(vp.1 as int)))
            },
            None => dec_text(b@.skip(pos as int)) is None,
        },
{
    let (n, p1) = match read_u64(b, pos) {
        Some(np) => np,
        None => {
            return None;
        },
    };
    if n > (b.len() - p1) as u64 {
        return None;
    }
    let n_us: usize = n as usize;
    let ghost body = b@.skip(p1 as int).take(n as int);
    proof {
        assert(body =~= b@.subrange(p1 as int, p1 as int + n as int));
    }
    let mut i: usize = 0;
    while i < n_us
        invariant
            b@.len() <= usize::MAX,
            pos <= b@.len(),
            p1 <= b@.len(),
            p1 + n_us <= b@.len(),
            i <= n_us,
            n_us == n,
            dec_u64(b@.skip(pos as int)) == Some((n, b@.skip(p1 as int))),
            body == b@.subrange(p1 as int, p1 as int + n as int),
            body == b@.skip(p1 as int).take(n as int),
            forall|j: int| 0 <= j < i ==> 0x20 <= #[trigger] body[j] <= 0x7e,
        decreases n_us - i,
    {
        assert(p1 + i < b@.len());
        let c = b[p1 + i];
        if c < 0x20 || c > 0x7e {
            proof {
                assert(body[i as int] == c);
                assert(!printable_bytes(body));
            }
            return None;
        }
        i = i + 1;
    }
    assert(printable_bytes(body));
    let sl = vstd::slice::slice_subrange(b.as_slice(), p1, p1 + n_us);
    let bv = vstd::slice::slice_to_vec(sl);
    proof {
        assert(bv@ =~= body);
    }
    let s = ascii_string(bv);
    proof {
        assert(b@.skip(p1 as int).skip(n as int) =~= b@.skip(p1 as int + n as int));
    }
    Some((s, p1 + n_us))
}

/// Whether two byte vectors hold the same bytes.
pub fn vec_bytes_eq(a: &Vec<u8>, b: &Vec<u8>) -> (r: bool)
    ensures
        r == (a@ == b@),
{
    if a.len() != b.len() {
        proof {
            assert(a@ != b@);
        }
        return false;
    }
    let mut i: usize = 0;
    while i < a.len()
        invariant
            a@.len() == b@.len(),
            i <= a@.len(),
            forall|j: int| 0 <= j < i ==> a@[j] == b@[j],
        decreases a@.len() - i,
    {
        if a[i] != b[i] {
            return false;
        }
        i = i + 1;
    }
    proof {
        assert(a@ =~= b@);
    }
    true
}

/// Turn printable-ASCII bytes into the string holding those characters.
pub fn ascii_string(bv: Vec<u8>) -> (s: String)
    requires
        printable_bytes(bv@),
    ensures
        s@ == bytes_chars(bv@),
{
    let ghost cs = bytes_chars(bv@);
    proof {
        broadcast use vstd::utf8::is_ascii_chars_encode_utf8;
        broadcast use vstd::utf8::encode_utf8_valid_utf8;

        assert(vstd::utf8::is_ascii_chars(cs)) by {
            assert forall|j: int| 0 <= j < cs.len() implies '\0' <= #[trigger] cs[j]
                <= '\u{7f}' by {
                assert(0x20 <= bv@[j] <= 0x7e);
            }
        }
        assert(vstd::utf8::encode_utf8(cs) =~= bv@);
    }
    match string_from_utf8(bv) {
        Some(s) => {
            proof {
                broadcast use vstd::utf8::encode_utf8_decode_utf8;

                assert(vstd::utf8::decode_utf8(vstd::utf8::encode_utf8(s@)) == s@);
                assert(vstd::utf8::decode_utf8(vstd::utf8::encode_utf8(cs)) == cs);
                assert(s@ == cs);
            }
            s
        },
        None => {
            proof {
                broadcast use vstd::utf8::encode_utf8_valid_utf8;

                assert(vstd::utf8::valid_utf8(vstd::utf8::encode_utf8(cs)));
                assert(false);
            }
            String::new()
        },
    }
}

pub proof fn lemma_dec_text_sound(b: Seq<u8>)
    requires
        dec_text(b) is Some,
    ensures
        wf_text(dec_text(b)->Some_0.0),
        b =~= enc_text(dec_text(b)->Some_0.0) + dec_text(b)->Some_0.1,
        dec_text(b)->Some_0.1.len() < b.len(),
{
    lemma_dec_u64_sound(b);
    let (n, r) = dec_u64(b)->Some_0;
    let s = bytes_chars(r.take(n as int));
    assert forall|i: int| 0 <= i < s.len() implies ' ' <= #[trigger] s[i] <= '~' by {
        assert(0x20 <= r.take(n as int)[i] <= 0x7e);
    }
    assert(text_bytes(s) =~= r.take(n as int));
    lemma_auto_spec_u64_to_from_le_bytes();
    assert(s.len() == n as int);
    assert(enc_text(s) + dec_text(b)->Some_0.1 =~= enc_u64(n) + (r.take(n as int) + r.skip(
        n as int,
    )));
    assert(r.take(n as int) + r.skip(n as int) =~= r);
    assert(b =~= enc_u64(n) + r);
}

} // verus!

//! The state codec: a game value becomes a compact, URL-safe,
//! whitespace-free token, and comes back from one.
//!
//! `serialize` writes the value with the crate's binary encoding,
//! compresses the bytes with gzip and renders them in URL-safe, padding-free
//! base64.  `deserialize` reverses the three steps; when the binary payload
//! does not parse it falls back to the legacy JSON payload format, so that
//! tokens written under the older text encoding stay loadable for good.

use vstd::prelude::*;

use base64::Engine;

use vstd::string::StrSliceExecFns;
use vstd::string::StringExecFns;

verus! {

/// The URL-safe unpadded base64 text of a byte sequence.
pub uninterp spec fn b64_of(b: Seq<u8>) -> Seq<char>;

/// The gzip compression of a byte sequence.
pub uninterp spec fn gzip_of(b: Seq<u8>) -> Seq<u8>;

/// What gzip decompression makes of a byte sequence: the recovered bytes,
/// or nothing for a stream no compressor produced.
pub uninterp spec fn gunzip_of(b: Seq<u8>) -> Option<Seq<u8>>;

/// A character of the URL-safe base64 alphabet; tokens are made of these
/// alone, so they carry no whitespace, padding or escapes.
pub open spec fn b64_char(c: char) -> bool {
    ||| 'A' <= c <= 'Z'
    ||| 'a' <= c <= 'z'
    ||| '0' <= c <= '9'
    ||| c == '-'
    ||| c == '_'
}

/// The token that a payload serializes to.
pub open spec fn token_of(payload: Seq<u8>) -> Seq<char> {
    b64_of(gzip_of(payload))
}

/// `token_of`, totalized over the machine limit: a payload whose compressed
/// form could not even be base64-buffered on this machine gets the empty
/// token.  Such a payload is over an exbibyte and cannot arise in practice.
pub open spec fn token_str(payload: Seq<u8>) -> Seq<char> {
    if gzip_of(payload).len() < 0x1000_0000_0000_0000 {
        token_of(payload)
    } else {
        Seq::<char>::empty()
    }
}

/// Relies on base64's `URL_SAFE_NO_PAD` engine: `encode` renders the bytes
/// as URL-safe unpadded base64, a function of the bytes alone, using only
/// the URL-safe alphabet.
#[verifier::external_body]
fn b64_encode(b: &Vec<u8>) -> (r: String)
    requires
        b@.len() < 0x1000_0000_0000_0000,
    ensures
        r@ == b64_of(b@),
        forall|i: int| 0 <= i < r@.len() ==> b64_char(#[trigger] r@[i]),
{
    base64::engine::general_purpose::URL_SAFE_NO_PAD.encode(b.as_slice())
}

/// Relies on base64's `URL_SAFE_NO_PAD` engine: `decode` accepts exactly
/// the encoder's outputs — padding must be absent and trailing bits are
/// rejected — so an accepted string is precisely the encoding of the
/// returned bytes, and a rejected one is the encoding of nothing.
#[verifier::external_body]
fn b64_decode(s: &str) -> (r: Option<Vec<u8>>)
    ensures
        match r {
            Some(v) => s@ == b64_of(v@) && (forall|b: Seq<u8>| s@ == b64_of(b) ==> v@ == b),
            None => forall|b: Seq<u8>| s@ != b64_of(b),
        },
{
    base64::engine::general_purpose::URL_SAFE_NO_PAD.decode(s.as_bytes()).ok()
}

/// Relies on flate2's `GzEncoder` over an in-memory buffer: the compressed
/// form is a function of the input bytes alone, and writing into a `Vec`
/// cannot fail.
#[verifier::external_body]
fn gzip_compress(b: &Vec<u8>) -> (r: Vec<u8>)
    ensures
        r@ == gzip_of(b@),
{
    let mut enc = flate2::write::GzEncoder::new(Vec::new(), flate2::Compression::default());
    std::io::Write::write_all(&mut enc, b.as_slice()).expect("writing to a Vec cannot fail");
    enc.finish().expect("finishing an in-memory gzip stream cannot fail")
}

/// Relies on flate2's `GzDecoder`: what decompression makes of a stream is
/// a function of its bytes alone (named `gunzip_of`), and it inverts
/// `GzEncoder` compression, so a compressor output always decompresses to
/// the bytes it was made from.
#[verifier::external_body]
fn gzip_decompress(b: &Vec<u8>) -> (r: Option<Vec<u8>>)
    ensures
        match r {
            Some(v) => gunzip_of(b@) == Some(v@) && (forall|x: Seq<u8>|
                b@ == #[trigger] gzip_of(x) ==> v@ == x),
            None => gunzip_of(b@) is None && (forall|x: Seq<u8>| b@ != #[trigger] gzip_of(x)),
        },
{
    let mut dec = flate2::read::GzDecoder::new(b.as_slice());
    let mut out = Vec::new();
    match std::io::Read::read_to_end(&mut dec, &mut out) {
        Ok(_) => Some(out),
        Err(_) => None,
    }
}

/// Why a token failed to decode.  Corrupt or forged tokens surface here;
/// they never panic and never partially apply a mutation.
#[derive(Clone, Copy, Debug, PartialEq, Eq, Structural)]
pub enum DecodeError {
    /// The token is not URL-safe unpadded base64.
    Base64,
    /// The base64 content is not a gzip stream.
    Compression,
    /// The decompressed payload is neither a current binary state record
    /// nor a legacy JSON one.
    Payload,
}

/// A state value that the codec can embed in a token.
///
/// `enc` is the current binary payload; `enc_legacy` the payload under the
/// retired JSON text format, kept decodable for good.  The two parsing
/// obligations say that parsing inverts encoding and that a successful
/// parse pins the payload down exactly.
pub trait TokenCodec: Sized {
    /// The values the codec is specified on.
    spec fn wf(&self) -> bool;

    /// Whether two values carry the same state.  Containers such as `Vec`
    /// are compared by their contents, which is as fine as an observer of
    /// the value can distinguish.
    spec fn same(&self, other: &Self) -> bool;

    /// The binary payload of the value.
    spec fn enc(&self) -> Seq<u8>;

    /// The legacy JSON payload of the value.
    spec fn enc_legacy(&self) -> Seq<u8>;

    /// The two payload formats can never be confused: a binary payload
    /// opens with the format version byte, a JSON one with a brace.
    proof fn lemma_format_heads(&self)
        requires
            self.wf(),
        ensures
            self.enc().len() > 0,
            self.enc()[0] == 1u8,
            self.enc_legacy().len() > 0,
            self.enc_legacy()[0] == 123u8,
    ;

    fn to_bytes(&self) -> (out: Vec<u8>)
        requires
            self.wf(),
        ensures
            out@ == self.enc(),
    ;

    fn to_bytes_legacy(&self) -> (out: Vec<u8>)
        requires
            self.wf(),
        ensures
            out@ == self.enc_legacy(),
    ;

    fn of_bytes(b: &Vec<u8>) -> (r: Option<Self>)
        ensures
            forall|v: Self|
                v.wf() && b@ == #[trigger] v.enc() ==> r is Some && r->Some_0.same(&v),
            r matches Some(v) ==> v.wf() && b@ == v.enc(),
    ;

    fn of_legacy(b: &Vec<u8>) -> (r: Option<Self>)
        ensures
            forall|v: Self|
                v.wf() && b@ == #[trigger] v.enc_legacy() ==> r is Some && r->Some_0.same(&v),
            r matches Some(v) ==> v.wf() && b@ == v.enc_legacy(),
    ;
}

/// Encode a state value into its transport token.
pub fn serialize<T: TokenCodec>(v: &T) -> (r: String)
    requires
        v.wf(),
    ensures
        r@ == token_str(v.enc()),
        forall|i: int| 0 <= i < r@.len() ==> b64_char(#[trigger] r@[i]),
{
    let bytes = v.to_bytes();
    let gz = gzip_compress(&bytes);
    if (gz.len() as u64) < 0x1000_0000_0000_0000u64 {
        b64_encode(&gz)
    } else {
        String::new()
    }
}

/// Encode a state value the way the retired text format did; kept so the
/// fallback path stays honest and testable.
pub fn serialize_legacy<T: TokenCodec>(v: &T) -> (r: String)
    requires
        v.wf(),
    ensures
        r@ == token_str(v.enc_legacy()),
        forall|i: int| 0 <= i < r@.len() ==> b64_char(#[trigger] r@[i]),
{
    let bytes = v.to_bytes_legacy();
    let gz = gzip_compress(&bytes);
    if (gz.len() as u64) < 0x1000_0000_0000_0000u64 {
        b64_encode(&gz)
    } else {
        String::new()
    }
}

/// The layout of rendered content that carries a state token: a fenced
/// first line holding the token (which never contains a newline), then
/// the rest of the rendering.
pub open spec fn fence_layout(c: Seq<char>, t: Seq<char>, rest: Seq<char>) -> bool {
    &&& c == "```"@ + t + "\n"@ + rest
    &&& forall|i: int| 0 <= i < t.len() ==> t[i] != '\n'
}

/// Put a token at the head of rendered content, as its first fenced line:
/// the next interaction finds and strips it deterministically.
pub fn embed_token(token: &str, title: &str) -> (r: String)
    ensures
        r@ == "```"@ + token@ + "\n"@ + title@ + "\n```"@,
        (forall|i: int| 0 <= i < token@.len() ==> token@[i] != '\n') ==> fence_layout(
            r@,
            token@,
            title@ + "\n```"@,
        ),
{
    let mut s = String::from_str("```");
    s.append(token);
    s.append("\n");
    s.append(title);
    s.append("\n```");
    proof {
        assert(s@ =~= "```"@ + token@ + "\n"@ + title@ + "\n```"@);
        if forall|i: int| 0 <= i < token@.len() ==> token@[i] != '\n' {
            assert(s@ =~= "```"@ + token@ + "\n"@ + (title@ + "\n```"@));
        }
    }
    s
}

/// Take the token back out of rendered content: strip the fence, take the
/// first line.  Content that `embed_token` laid out always yields its
/// token.
pub fn extract_token(content: &str) -> (r: Option<String>)
    ensures
        forall|t: Seq<char>, rest: Seq<char>|
            #[trigger] fence_layout(content@, t, rest) ==> r is Some && r->Some_0@ == t,
{
    let c = crate::textutil::str_chars(content);
    let n = c.len();
    proof {
        reveal_strlit("```");
        reveal_strlit("\n");
    }
    if n < 3 || c[0] != '`' || c[1] != '`' || c[2] != '`' {
        proof {
            assert forall|t: Seq<char>, rest: Seq<char>|
                #[trigger] fence_layout(content@, t, rest) implies false by {
                assert(content@[0] == '`' && content@[1] == '`' && content@[2] == '`');
            }
        }
        return None;
    }
    // the first newline ends the token line
    let mut k: usize = 3;
    while k < n && c[k] != '\n'
        invariant
            n == content@.len(),
            c@ == content@,
            3 <= k <= n,
            forall|i: int| 3 <= i < k ==> content@[i] != '\n',
        decreases n - k,
    {
        k = k + 1;
    }
    if k == n {
        // no newline: content the embedding never produces
        proof {
            assert forall|t: Seq<char>, rest: Seq<char>|
                #[trigger] fence_layout(content@, t, rest) implies false by {
                assert(content@[3 + t.len() as int] == '\n');
            }
        }
        return None;
    }
    let token = content.substring_char(3, k);
    proof {
        assert forall|t: Seq<char>, rest: Seq<char>|
            #[trigger] fence_layout(content@, t, rest) implies token@ == t by {
            // the token has no newline and the char after it is one, so
            // the scan stopped exactly at its end
            assert(content@[3 + t.len() as int] == '\n');
            assert(content@[k as int] == '\n');
            if (k as int) < 3 + t.len() {
                assert(content@[k as int] == t[k as int - 3]);
            }
            if (k as int) > 3 + t.len() {
                assert(content@[3 + t.len() as int] != '\n');
            }
            assert(k as int == 3 + t.len());
            assert(token@ =~= t);
        }
    }
    Some(token.to_owned())
}

/// Decode a transport token back into the state value it carries.
///
/// Together with `serialize` this states the round trip: any token
/// `serialize` made of a well-formed value decodes to that very value, and
/// so does any token of the legacy text format.
pub fn deserialize<T: TokenCodec>(s: &str) -> (r: Result<T, DecodeError>)
    ensures
        forall|v: T|
            v.wf() && s@ == token_of(#[trigger] v.enc()) ==> r is Ok && r->Ok_0.same(&v),
        forall|v: T|
            v.wf() && s@ == token_of(#[trigger] v.enc_legacy()) ==> r is Ok && r->Ok_0.same(&v),
        // an accepted token is the canonical base64 of a stream whose
        // inflation is exactly the returned value's payload — garbage is
        // never accepted
        r matches Ok(v) ==> v.wf() && (exists|gz: Seq<u8>|
            s@ == b64_of(gz) && (gunzip_of(gz) == Some(v.enc()) || gunzip_of(gz) == Some(
                v.enc_legacy(),
            ))),
        r == Err::<T, DecodeError>(DecodeError::Base64) <==> (forall|b: Seq<u8>| s@ != b64_of(b)),
{
    let gz = match b64_decode(s) {
        Some(g) => g,
        None => {
            return Err(DecodeError::Base64);
        },
    };
    proof {
        assert(s@ == b64_of(gz@));
    }
    let payload = match gzip_decompress(&gz) {
        Some(p) => p,
        None => {
            return Err(DecodeError::Compression);
        },
    };
    match T::of_bytes(&payload) {
        Some(v) => {
            proof {
                assert forall|w: T|
                    w.wf() && s@ == token_of(#[trigger] w.enc_legacy()) implies v.same(&w) by {
                    w.lemma_format_heads();
                    v.lemma_format_heads();
                }
            }
            Ok(v)
        },
        None => match T::of_legacy(&payload) {
            Some(v) => Ok(v),
            None => Err(DecodeError::Payload),
        },
    }
}

} // verus!

use vstd::prelude::*;
use vstd::bytes::{
    lemma_auto_spec_u64_to_from_le_bytes, spec_u64_from_le_bytes, spec_u64_to_le_bytes,
    u64_from_le_bytes, u64_to_le_bytes,
};
use vstd::utf8::{decode_utf8, encode_utf8, valid_utf8};

verus! {

/// A value with a self-delimiting byte encoding.
pub trait Payload: Sized + View {
    /// The bytes that stand for `v`.
    spec fn encoding(v: Self::V) -> Seq<u8>;

    /// Whether `v` fits the encoding's length fields.
    spec fn encodable(v: Self::V) -> bool;

    /// The value at the front of `bytes` and how many bytes it takes, if any.
    spec fn parse(bytes: Seq<u8>) -> Option<(Self::V, nat)>;

    /// Parsing an encoding followed by anything gives the value back and
    /// consumes exactly its encoding.
    proof fn lemma_parse_encoding(v: Self::V, rest: Seq<u8>)
        requires
            Self::encodable(v),
        ensures
            Self::parse(Self::encoding(v) + rest) == Some((v, Self::encoding(v).len())),
    ;

    /// A parse looks at no byte past what it consumes: more bytes after them
    /// leave its result unchanged.
    proof fn lemma_parse_extends(b: Seq<u8>, more: Seq<u8>)
        requires
            Self::parse(b) is Some,
        ensures
            Self::parse(b).unwrap().1 <= b.len(),
            Self::parse(b + more) == Self::parse(b),
    ;

    /// Appends the encoding of `self` to `out`.
    fn encode_into(&self, out: &mut Vec<u8>)
        ensures
            Self::encodable(self@),
            final(out)@ == old(out)@ + Self::encoding(self@),
    ;

    /// Reads a value from `bytes` starting at `pos`, with the position after it.
    fn decode_at(bytes: &Vec<u8>, pos: usize) -> (r: Option<(Self, usize)>)
        requires
            pos <= bytes@.len(),
        ensures
            match r {
                Some((x, end)) => pos <= end <= bytes@.len() && Self::parse(
                    bytes@.subrange(pos as int, bytes@.len() as int),
                ) == Some((x@, (end - pos) as nat)),
                None => Self::parse(bytes@.subrange(pos as int, bytes@.len() as int)) is None,
            },
    ;
}

/// The value that `bytes` encode as a whole, if they encode one.
pub open spec fn decoded<T: Payload>(bytes: Seq<u8>) -> Option<T::V> {
    match T::parse(bytes) {
        Some((v, n)) => if n == bytes.len() {
            Some(v)
        } else {
            None
        },
        None => None,
    }
}

/// Decoding an encoding gives back the value encoded.
pub proof fn lemma_round_trip<T: Payload>(v: T::V)
    requires
        T::encodable(v),
    ensures
        decoded::<T>(T::encoding(v)) == Some(v),
{
    T::lemma_parse_encoding(v, Seq::empty());
    assert(T::encoding(v) + Seq::<u8>::empty() =~= T::encoding(v));
}

/// Bytes cut short never decode: a strict prefix of an encoding is rejected.
pub proof fn lemma_truncated_rejected<T: Payload>(v: T::V, m: int)
    requires
        T::encodable(v),
        0 <= m < T::encoding(v).len(),
    ensures
        decoded::<T>(T::encoding(v).subrange(0, m)) is None,
{
    let e = T::encoding(v);
    let p = e.subrange(0, m);
    T::lemma_parse_encoding(v, Seq::empty());
    assert(e + Seq::<u8>::empty() =~= e);
    if T::parse(p) is Some {
        T::lemma_parse_extends(p, e.subrange(m, e.len() as int));
        assert(p + e.subrange(m, e.len() as int) =~= e);
    }
}

/// The encoding of `v` as a whole.
pub fn encode<T: Payload>(v: &T) -> (r: Vec<u8>)
    ensures
        T::encodable(v@),
        r@ == T::encoding(v@),
{
    let mut out: Vec<u8> = Vec::new();
    v.encode_into(&mut out);
    assert(out@ =~= T::encoding(v@));
    out
}

/// The value that `bytes` encode as a whole; `None` where they are malformed,
/// truncated or followed by more bytes.
pub fn decode<T: Payload>(bytes: &Vec<u8>) -> (r: Option<T>)
    ensures
        match r {
            Some(x) => decoded::<T>(bytes@) == Some(x@),
            None => decoded::<T>(bytes@) is None,
        },
{
    assert(bytes@.subrange(0, bytes@.len() as int) =~= bytes@);
    match T::decode_at(bytes, 0) {
        Some((x, end)) => {
            if end == bytes.len() {
                Some(x)
            } else {
                None
            }
        },
        None => None,
    }
}

/// Relies on `String::from_utf8`: it succeeds exactly on valid UTF-8 and then
/// holds the characters the bytes encode.
#[verifier::external_body]
fn string_from_utf8(bytes: Vec<u8>) -> (r: Option<String>)
    ensures
        r is Some <==> valid_utf8(bytes@),
        r matches Some(s) ==> s@ == decode_utf8(bytes@),
{
    String::from_utf8(bytes).ok()
}

/// The UTF-8 bytes of `s` behind their count as eight little-endian bytes.
pub open spec fn string_encoding(s: Seq<char>) -> Seq<u8> {
    spec_u64_to_le_bytes(encode_utf8(s).len() as u64) + encode_utf8(s)
}

/// Reads a length-prefixed UTF-8 string from the front of `b`.
pub open spec fn string_parse(b: Seq<u8>) -> Option<(Seq<char>, nat)> {
    if b.len() < 8 {
        None
    } else {
        let n = spec_u64_from_le_bytes(b.subrange(0, 8)) as nat;
        if b.len() < 8 + n {
            None
        } else {
            let body = b.subrange(8, 8 + n as int);
            if valid_utf8(body) {
                Some((decode_utf8(body), (8 + n) as nat))
            } else {
                None
            }
        }
    }
}

/// Copies `bytes[from..to]`.
pub(crate) fn copy_range(bytes: &Vec<u8>, from: usize, to: usize) -> (r: Vec<u8>)
    requires
        from <= to <= bytes@.len(),
    ensures
        r@ == bytes@.subrange(from as int, to as int),
{
    let mut r: Vec<u8> = Vec::new();
    let mut i: usize = from;
    while i < to
        invariant
            from <= i <= to <= bytes@.len(),
            r@ == bytes@.subrange(from as int, i as int),
        decreases to - i,
    {
        r.push(bytes[i]);
        assert(r@ =~= bytes@.subrange(from as int, i + 1));
        i = i + 1;
    }
    r
}

impl Payload for String {
    open spec fn encoding(v: Seq<char>) -> Seq<u8> {
        string_encoding(v)
    }

    open spec fn encodable(v: Seq<char>) -> bool {
        encode_utf8(v).len() <= u64::MAX
    }

    open spec fn parse(bytes: Seq<u8>) -> Option<(Seq<char>, nat)> {
        string_parse(bytes)
    }

    proof fn lemma_parse_encoding(v: Seq<char>, rest: Seq<u8>) {
        lemma_auto_spec_u64_to_from_le_bytes();
        vstd::utf8::encode_utf8_valid_utf8(v);
        vstd::utf8::encode_utf8_decode_utf8(v);
        let u = encode_utf8(v);
        let b = string_encoding(v) + rest;
        assert(b.subrange(0, 8) =~= spec_u64_to_le_bytes(u.len() as u64));
        assert(b.subrange(8, 8 + u.len() as int) =~= u);
    }

    proof fn lemma_parse_extends(b: Seq<u8>, more: Seq<u8>) {
        let c = b + more;
        assert(c.subrange(0, 8) =~= b.subrange(0, 8));
        let n = spec_u64_from_le_bytes(b.subrange(0, 8)) as nat;
        assert(c.subrange(8, 8 + n as int) =~= b.subrange(8, 8 + n as int));
    }

    fn encode_into(&self, out: &mut Vec<u8>) {
        let body = self.as_str().as_bytes();
        let mut len_bytes = u64_to_le_bytes(body.len() as u64);
        let ghost before = out@;
        out.append(&mut len_bytes);
        let mut i: usize = 0;
        while i < body.len()
            invariant
                i <= body@.len(),
                body@ == encode_utf8(self@),
                out@ == before + spec_u64_to_le_bytes(body@.len() as u64) + body@.subrange(
                    0,
                    i as int,
                ),
            decreases body.len() - i,
        {
            out.push(body[i]);
            assert(body@.subrange(0, i + 1) =~= body@.subrange(0, i as int).push(body@[i as int]));
            i = i + 1;
        }
        assert(body@.subrange(0, body@.len() as int) =~= body@);
        assert(out@ =~= before + string_encoding(self@));
    }

    fn decode_at(bytes: &Vec<u8>, pos: usize) -> (r: Option<(String, usize)>) {
        let ghost b = bytes@.subrange(pos as int, bytes@.len() as int);
        if bytes.len() - pos < 8 {
            return None;
        }
        let len_bytes = copy_range(bytes, pos, pos + 8);
        assert(b.subrange(0, 8) =~= len_bytes@);
        let n = u64_from_le_bytes(len_bytes.as_slice());
        if ((bytes.len() - pos - 8) as u64) < n {
            return None;
        }
        let end = pos + 8 + n as usize;
        let body = copy_range(bytes, pos + 8, end);
        assert(b.subrange(8, 8 + n as int) =~= body@);
        match string_from_utf8(body) {
            Some(s) => Some((s, end)),
            None => None,
        }
    }
}

} // verus!

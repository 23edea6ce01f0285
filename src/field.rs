use vstd::prelude::*;
use vstd::bytes::{
    lemma_auto_spec_u64_to_from_le_bytes, spec_u64_from_le_bytes, spec_u64_to_le_bytes,
    u64_from_le_bytes, u64_to_le_bytes,
};
use crate::codec::{copy_range, decoded, string_encoding, string_parse, Payload};

verus! {

broadcast use vstd::std_specs::vec::group_vec_axioms;

/// A typed value holder: one value tagged with the name of its type, or an
/// ordered group of nested holders.
pub enum Field<T> {
    Simple { field_type: String, value: T },
    Composite { fields: Vec<Field<T>> },
}

/// The mathematical form of a `Field`.
pub enum FieldView<V> {
    Simple { field_type: Seq<char>, value: V },
    Composite { fields: Seq<FieldView<V>> },
}

/// The view of `f`.
pub open spec fn field_view<T: View>(f: Field<T>) -> FieldView<T::V>
    decreases f,
{
    match f {
        Field::Simple { field_type, value } => FieldView::Simple {
            field_type: field_type@,
            value: value@,
        },
        Field::Composite { fields } => FieldView::Composite { fields: fields_view(fields@) },
    }
}

/// The views of the holders in `s`, in order.
pub open spec fn fields_view<T: View>(s: Seq<Field<T>>) -> Seq<FieldView<T::V>>
    decreases s,
{
    if s.len() == 0 {
        Seq::empty()
    } else {
        fields_view(s.drop_last()).push(field_view(s.last()))
    }
}

impl<T: View> View for Field<T> {
    type V = FieldView<T::V>;

    open spec fn view(&self) -> FieldView<T::V> {
        field_view(*self)
    }
}

proof fn lemma_fields_view<T: View>(s: Seq<Field<T>>)
    ensures
        fields_view(s).len() == s.len(),
        forall|i: int| 0 <= i < s.len() ==> #[trigger] fields_view(s)[i] == field_view(s[i]),
    decreases s.len(),
{
    if s.len() > 0 {
        lemma_fields_view(s.drop_last());
    }
}

impl<T> Field<T> {
    /// A single value tagged with the name of its type.
    pub fn new(field_type: String, value: T) -> (r: Self)
        ensures
            r == (Field::Simple { field_type, value }),
    {
        Field::Simple { field_type, value }
    }

    /// An ordered group of holders.
    pub fn composite(fields: Vec<Field<T>>) -> (r: Self)
        ensures
            r == (Field::Composite { fields }),
    {
        Field::Composite { fields }
    }
}

/// The encoding of a holder: a tag byte `0` with the type name and the value,
/// or a tag byte `1` with the count of children and their encodings in order.
pub open spec fn field_encoding<T: Payload>(f: FieldView<T::V>) -> Seq<u8>
    decreases f,
{
    match f {
        FieldView::Simple { field_type, value } => seq![0u8] + string_encoding(field_type)
            + T::encoding(value),
        FieldView::Composite { fields } => seq![1u8] + spec_u64_to_le_bytes(fields.len() as u64)
            + fields_encoding::<T>(fields),
    }
}

/// The encodings of the holders in `s`, one after another.
pub open spec fn fields_encoding<T: Payload>(s: Seq<FieldView<T::V>>) -> Seq<u8>
    decreases s,
{
    if s.len() == 0 {
        Seq::empty()
    } else {
        fields_encoding::<T>(s.drop_last()) + field_encoding::<T>(s.last())
    }
}

/// Whether every length in `f` fits its eight-byte field.
pub open spec fn field_encodable<T: Payload>(f: FieldView<T::V>) -> bool
    decreases f,
{
    match f {
        FieldView::Simple { field_type, value } => String::encodable(field_type)
            && T::encodable(value),
        FieldView::Composite { fields } => fields.len() <= u64::MAX && fields_encodable::<T>(
            fields,
        ),
    }
}

/// Whether every holder in `s` is encodable.
pub open spec fn fields_encodable<T: Payload>(s: Seq<FieldView<T::V>>) -> bool
    decreases s,
{
    if s.len() == 0 {
        true
    } else {
        fields_encodable::<T>(s.drop_last()) && field_encodable::<T>(s.last())
    }
}

/// Reads a holder from the front of `b`, with the number of bytes it takes.
pub open spec fn field_parse<T: Payload>(b: Seq<u8>) -> Option<(FieldView<T::V>, nat)>
    decreases b.len(), 0nat, 0nat,
{
    if b.len() == 0 {
        None
    } else if b[0] == 0 {
        match string_parse(b.subrange(1, b.len() as int)) {
            None => None,
            Some((ft, k1)) => if 1 + k1 > b.len() {
                None
            } else {
                match T::parse(b.subrange(1 + k1 as int, b.len() as int)) {
                    None => None,
                    Some((v, k2)) => Some(
                        (FieldView::Simple { field_type: ft, value: v }, (1 + k1 + k2) as nat),
                    ),
                }
            },
        }
    } else if b[0] == 1 {
        if b.len() < 9 {
            None
        } else {
            let n = spec_u64_from_le_bytes(b.subrange(1, 9)) as nat;
            match children_parse::<T>(b.subrange(9, b.len() as int), n) {
                None => None,
                Some((fs, k)) => Some((FieldView::Composite { fields: fs }, (9 + k) as nat)),
            }
        }
    } else {
        None
    }
}

/// Reads `n` holders one after another from the front of `b`.
pub open spec fn children_parse<T: Payload>(b: Seq<u8>, n: nat) -> Option<
    (Seq<FieldView<T::V>>, nat),
>
    decreases b.len(), 1nat, n,
{
    if n == 0 {
        Some((Seq::empty(), 0))
    } else {
        match field_parse::<T>(b) {
            None => None,
            Some((f, k)) => if k > b.len() {
                None
            } else {
                match children_parse::<T>(b.subrange(k as int, b.len() as int), (n - 1) as nat) {
                    None => None,
                    Some((fs, k2)) => Some((seq![f] + fs, k + k2)),
                }
            },
        }
    }
}

proof fn lemma_fields_front<T: Payload>(s: Seq<FieldView<T::V>>)
    requires
        s.len() > 0,
    ensures
        fields_encoding::<T>(s) == field_encoding::<T>(s[0]) + fields_encoding::<T>(
            s.subrange(1, s.len() as int),
        ),
        fields_encodable::<T>(s) == (field_encodable::<T>(s[0]) && fields_encodable::<T>(
            s.subrange(1, s.len() as int),
        )),
    decreases s.len(),
{
    let tail = s.subrange(1, s.len() as int);
    if s.len() == 1 {
        assert(s.drop_last() =~= Seq::<FieldView<T::V>>::empty());
        assert(tail =~= Seq::<FieldView<T::V>>::empty());
        assert(fields_encoding::<T>(s) =~= field_encoding::<T>(s[0]) + fields_encoding::<T>(tail));
    } else {
        let init = s.drop_last();
        lemma_fields_front::<T>(init);
        assert(init.subrange(1, init.len() as int) =~= tail.drop_last());
        assert(tail.last() == s.last());
        assert(init[0] == s[0]);
        assert(fields_encoding::<T>(s) =~= field_encoding::<T>(s[0]) + fields_encoding::<T>(tail));
    }
}

proof fn lemma_field_parse<T: Payload>(f: FieldView<T::V>, rest: Seq<u8>)
    requires
        field_encodable::<T>(f),
    ensures
        field_parse::<T>(field_encoding::<T>(f) + rest) == Some(
            (f, field_encoding::<T>(f).len()),
        ),
    decreases f,
{
    let b = field_encoding::<T>(f) + rest;
    match f {
        FieldView::Simple { field_type, value } => {
            let se = string_encoding(field_type);
            let ve = T::encoding(value);
            assert(b.subrange(1, b.len() as int) =~= se + (ve + rest));
            String::lemma_parse_encoding(field_type, ve + rest);
            assert(b.subrange(1 + se.len() as int, b.len() as int) =~= ve + rest);
            T::lemma_parse_encoding(value, rest);
        },
        FieldView::Composite { fields } => {
            lemma_auto_spec_u64_to_from_le_bytes();
            let le = spec_u64_to_le_bytes(fields.len() as u64);
            assert(b.subrange(1, 9) =~= le);
            assert(b.subrange(9, b.len() as int) =~= fields_encoding::<T>(fields) + rest);
            lemma_children_parse::<T>(fields, rest);
        },
    }
}

proof fn lemma_children_parse<T: Payload>(s: Seq<FieldView<T::V>>, rest: Seq<u8>)
    requires
        fields_encodable::<T>(s),
    ensures
        children_parse::<T>(fields_encoding::<T>(s) + rest, s.len()) == Some(
            (s, fields_encoding::<T>(s).len()),
        ),
    decreases s,
{
    if s.len() == 0 {
        assert(fields_encoding::<T>(s) + rest =~= rest);
        assert(s =~= Seq::<FieldView<T::V>>::empty());
    } else {
        lemma_fields_front::<T>(s);
        let tail = s.subrange(1, s.len() as int);
        let te = fields_encoding::<T>(tail) + rest;
        let b = fields_encoding::<T>(s) + rest;
        assert(b =~= field_encoding::<T>(s[0]) + te);
        lemma_field_parse::<T>(s[0], te);
        let k = field_encoding::<T>(s[0]).len();
        assert(b.subrange(k as int, b.len() as int) =~= te);
        lemma_children_parse::<T>(tail, rest);
        assert(seq![s[0]] + tail =~= s);
    }
}

proof fn lemma_child_decreases<T>(f: Field<T>, i: int)
    requires
        f is Composite,
        0 <= i < f->fields.len(),
    ensures
        decreases_to!(f => f->fields@[i]),
{
    let v = f->fields;
    assert(decreases_to!(f => f->fields));
    assert(decreases_to!(v => v@));
    assert(decreases_to!(v@ => v@[i]));
}

/// Appends the encoding of `f` to `out`.
fn encode_field<T: Payload>(f: &Field<T>, out: &mut Vec<u8>)
    ensures
        field_encodable::<T>(f@),
        final(out)@ == old(out)@ + field_encoding::<T>(f@),
    decreases f,
{
    match f {
        Field::Simple { field_type, value } => {
            out.push(0u8);
            field_type.encode_into(out);
            value.encode_into(out);
            assert(final(out)@ =~= old(out)@ + field_encoding::<T>(f@));
        },
        Field::Composite { fields } => {
            let ghost vs = fields_view(fields@);
            proof {
                lemma_fields_view(fields@);
            }
            out.push(1u8);
            let mut count = u64_to_le_bytes(fields.len() as u64);
            out.append(&mut count);
            let ghost start = out@;
            let mut i: usize = 0;
            while i < fields.len()
                invariant
                    i <= fields.len(),
                    *f == (Field::Composite { fields: *fields }),
                    vs == fields_view(fields@),
                    vs.len() == fields@.len(),
                    forall|j: int| 0 <= j < fields@.len() ==> #[trigger] vs[j] == field_view(fields@[j]),
                    out@ == start + fields_encoding::<T>(vs.subrange(0, i as int)),
                    fields_encodable::<T>(vs.subrange(0, i as int)),
                decreases fields.len() - i,
            {
                proof {
                    lemma_child_decreases(*f, i as int);
                }
                encode_field(&fields[i], out);
                proof {
                    let next = vs.subrange(0, i + 1);
                    assert(next.drop_last() =~= vs.subrange(0, i as int));
                    assert(next.last() == vs[i as int]);
                }
                i = i + 1;
            }
            assert(vs.subrange(0, fields.len() as int) =~= vs);
            assert(final(out)@ =~= old(out)@ + field_encoding::<T>(f@));
        },
    }
}

/// `r` with `acc` put before its holders and `off` added to its length.
pub open spec fn prepend<V>(acc: Seq<FieldView<V>>, off: nat, r: Option<(Seq<FieldView<V>>, nat)>) -> Option<
    (Seq<FieldView<V>>, nat),
> {
    match r {
        None => None,
        Some((fs, k)) => Some((acc + fs, off + k)),
    }
}

/// Reads a holder from `bytes` starting at `pos`, with the position after it.
fn decode_field<T: Payload>(bytes: &Vec<u8>, pos: usize) -> (r: Option<(Field<T>, usize)>)
    requires
        pos <= bytes@.len(),
    ensures
        match r {
            Some((x, end)) => pos <= end <= bytes@.len() && field_parse::<T>(
                bytes@.subrange(pos as int, bytes@.len() as int),
            ) == Some((x@, (end - pos) as nat)),
            None => field_parse::<T>(bytes@.subrange(pos as int, bytes@.len() as int)) is None,
        },
    decreases bytes@.len() - pos,
{
    let ghost len = bytes@.len() as int;
    let ghost b = bytes@.subrange(pos as int, len);
    if pos == bytes.len() {
        return None;
    }
    let tag = bytes[pos];
    if tag == 0 {
        assert(b.subrange(1, b.len() as int) =~= bytes@.subrange(pos + 1, len));
        let (field_type, e1) = match String::decode_at(bytes, pos + 1) {
            Some(p) => p,
            None => return None,
        };
        assert(b.subrange(1 + (e1 - pos - 1), b.len() as int) =~= bytes@.subrange(e1 as int, len));
        let (value, e2) = match T::decode_at(bytes, e1) {
            Some(p) => p,
            None => return None,
        };
        Some((Field::Simple { field_type, value }, e2))
    } else if tag == 1 {
        if bytes.len() - pos < 9 {
            return None;
        }
        let count_bytes = copy_range(bytes, pos + 1, pos + 9);
        assert(b.subrange(1, 9) =~= count_bytes@);
        let n = u64_from_le_bytes(count_bytes.as_slice());
        let ghost base = (pos + 9) as int;
        assert(b.subrange(9, b.len() as int) =~= bytes@.subrange(base, len));
        let mut acc: Vec<Field<T>> = Vec::new();
        let mut cur: usize = pos + 9;
        let mut i: u64 = 0;
        assert(prepend(fields_view(acc@), 0, children_parse::<T>(bytes@.subrange(base, len), n as nat))
            =~= children_parse::<T>(bytes@.subrange(base, len), n as nat)) by {
            assert(fields_view(acc@) =~= Seq::<FieldView<T::V>>::empty());
            match children_parse::<T>(bytes@.subrange(base, len), n as nat) {
                Some((fs, k)) => {
                    assert(Seq::<FieldView<T::V>>::empty() + fs =~= fs);
                },
                None => {},
            }
        }
        while i < n
            invariant
                pos + 9 <= cur <= len,
                len == bytes@.len(),
                base == pos + 9,
                b == bytes@.subrange(pos as int, len),
                b.len() >= 9 && b[0] == 1,
                n == spec_u64_from_le_bytes(b.subrange(1, 9)),
                b.subrange(9, b.len() as int) == bytes@.subrange(base, len),
                i <= n,
                children_parse::<T>(bytes@.subrange(base, len), n as nat) == prepend(
                    fields_view(acc@),
                    (cur - base) as nat,
                    children_parse::<T>(bytes@.subrange(cur as int, len), (n - i) as nat),
                ),
            decreases n - i,
        {
            let ghost c = bytes@.subrange(cur as int, len);
            let (x, e) = match decode_field::<T>(bytes, cur) {
                Some(p) => p,
                None => {
                    assert(children_parse::<T>(c, (n - i) as nat) is None);
                    return None;
                },
            };
            let ghost k = (e - cur) as nat;
            assert(c.subrange(k as int, c.len() as int) =~= bytes@.subrange(e as int, len));
            let ghost before = fields_view(acc@);
            let ghost prev = acc@;
            acc.push(x);
            proof {
                assert(acc@.drop_last() =~= prev);
                assert(fields_view(acc@) == before.push(x@));
                let rest = children_parse::<T>(bytes@.subrange(e as int, len), (n - i - 1) as nat);
                match rest {
                    Some((fs, k2)) => {
                        assert(before + (seq![x@] + fs) =~= before.push(x@) + fs);
                    },
                    None => {},
                }
            }
            cur = e;
            i = i + 1;
        }
        proof {
            assert(fields_view(acc@) + Seq::<FieldView<T::V>>::empty() =~= fields_view(acc@));
        }
        Some((Field::Composite { fields: acc }, cur))
    } else {
        None
    }
}

proof fn lemma_field_parse_extends<T: Payload>(b: Seq<u8>, more: Seq<u8>)
    requires
        field_parse::<T>(b) is Some,
    ensures
        field_parse::<T>(b).unwrap().1 <= b.len(),
        field_parse::<T>(b + more) == field_parse::<T>(b),
    decreases b.len(), 0nat, 0nat,
{
    let c = b + more;
    if b[0] == 0 {
        let b1 = b.subrange(1, b.len() as int);
        assert(c.subrange(1, c.len() as int) =~= b1 + more);
        String::lemma_parse_extends(b1, more);
        let k1 = string_parse(b1).unwrap().1;
        let b2 = b.subrange(1 + k1 as int, b.len() as int);
        assert(c.subrange(1 + k1 as int, c.len() as int) =~= b2 + more);
        T::lemma_parse_extends(b2, more);
    } else {
        let b9 = b.subrange(9, b.len() as int);
        assert(c.subrange(1, 9) =~= b.subrange(1, 9));
        assert(c.subrange(9, c.len() as int) =~= b9 + more);
        let n = spec_u64_from_le_bytes(b.subrange(1, 9)) as nat;
        lemma_children_parse_extends::<T>(b9, more, n);
    }
}

proof fn lemma_children_parse_extends<T: Payload>(b: Seq<u8>, more: Seq<u8>, n: nat)
    requires
        children_parse::<T>(b, n) is Some,
    ensures
        children_parse::<T>(b, n).unwrap().1 <= b.len(),
        children_parse::<T>(b + more, n) == children_parse::<T>(b, n),
    decreases b.len(), 1nat, n,
{
    if n > 0 {
        let c = b + more;
        lemma_field_parse_extends::<T>(b, more);
        let k = field_parse::<T>(b).unwrap().1;
        let rest = b.subrange(k as int, b.len() as int);
        assert(c.subrange(k as int, c.len() as int) =~= rest + more);
        lemma_children_parse_extends::<T>(rest, more, (n - 1) as nat);
    }
}

/// Decoding the encoding of a holder tree gives the same tree back,
/// variants and the order of children included.
pub proof fn lemma_field_round_trip<T: Payload>(f: FieldView<T::V>)
    requires
        field_encodable::<T>(f),
    ensures
        decoded::<Field<T>>(field_encoding::<T>(f)) == Some(f),
{
    crate::codec::lemma_round_trip::<Field<T>>(f);
}

impl<T: Payload> Payload for Field<T> {
    open spec fn encoding(v: FieldView<T::V>) -> Seq<u8> {
        field_encoding::<T>(v)
    }

    open spec fn encodable(v: FieldView<T::V>) -> bool {
        field_encodable::<T>(v)
    }

    open spec fn parse(bytes: Seq<u8>) -> Option<(FieldView<T::V>, nat)> {
        field_parse::<T>(bytes)
    }

    proof fn lemma_parse_encoding(v: FieldView<T::V>, rest: Seq<u8>) {
        lemma_field_parse::<T>(v, rest);
    }

    proof fn lemma_parse_extends(b: Seq<u8>, more: Seq<u8>) {
        lemma_field_parse_extends::<T>(b, more);
    }

    fn encode_into(&self, out: &mut Vec<u8>) {
        encode_field(self, out);
    }

    fn decode_at(bytes: &Vec<u8>, pos: usize) -> (r: Option<(Field<T>, usize)>) {
        decode_field(bytes, pos)
    }
}

} // verus!

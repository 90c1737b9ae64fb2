use vstd::prelude::*;

verus! {

/// Decimal digits (ASCII bytes) of a non-negative integer, most significant
/// digit first, with no leading zeros except for the number zero itself.
pub open spec fn dec_digits(v: int) -> Seq<u8>
    recommends
        v >= 0,
    decreases v,
{
    if v < 10 {
        seq![(48 + if 0 <= v { v } else { 0 }) as u8]
    } else {
        dec_digits(v / 10).push((48 + v % 10) as u8)
    }
}

/// The fixed sixteen-byte suffix appended to a padded string: "0_1_2_3_4_5_6_7_".
pub open spec fn pad_suffix() -> Seq<u8> {
    seq![48u8, 95u8, 49u8, 95u8, 50u8, 95u8, 51u8, 95u8, 52u8, 95u8, 53u8, 95u8, 54u8, 95u8, 55u8]
        .push(95u8)
}

/// The text a padded-string wrapper holds for the integer `v`: its decimal
/// form, followed by the fixed suffix when padding is on.
pub open spec fn custom_text(pad: bool, v: int) -> Seq<u8> {
    if pad {
        dec_digits(v) + pad_suffix()
    } else {
        dec_digits(v)
    }
}

/// A string key or value built from an integer: its decimal text, optionally
/// padded with a fixed suffix to simulate longer keys. Equality and hashing
/// are structural over the text.
#[derive(Clone, PartialEq, Eq, Hash, Debug)]
pub struct CustomString(pub Vec<u8>);

impl View for CustomString {
    type V = Seq<u8>;

    open spec fn view(&self) -> Seq<u8> {
        self.0@
    }
}

fn push_decimal(v: i32, out: &mut Vec<u8>)
    requires
        v >= 0,
    ensures
        final(out)@ == old(out)@ + dec_digits(v as int),
    decreases v,
{
    if v >= 10 {
        push_decimal(v / 10, out);
    }
    let d: u8 = 48 + (v % 10) as u8;
    out.push(d);
    proof {
        assert(out@ =~= old(out)@ + dec_digits(v as int));
    }
}

fn push_pad(out: &mut Vec<u8>)
    ensures
        final(out)@ == old(out)@ + pad_suffix(),
{
    out.push(48u8);
    out.push(95u8);
    out.push(49u8);
    out.push(95u8);
    out.push(50u8);
    out.push(95u8);
    out.push(51u8);
    out.push(95u8);
    out.push(52u8);
    out.push(95u8);
    out.push(53u8);
    out.push(95u8);
    out.push(54u8);
    out.push(95u8);
    out.push(55u8);
    out.push(95u8);
    proof {
        assert(out@ =~= old(out)@ + pad_suffix());
    }
}

impl CustomString {
    /// Build the text form of a non-negative integer, padded iff `pad` is set.
    pub fn from_int(v: i32, pad: bool) -> (s: CustomString)
        requires
            v >= 0,
        ensures
            s@ == custom_text(pad, v as int),
    {
        let mut out: Vec<u8> = Vec::new();
        push_decimal(v, &mut out);
        if pad {
            push_pad(&mut out);
        }
        proof {
            assert(out@ =~= custom_text(pad, v as int));
        }
        CustomString(out)
    }
}

/// The mathematical content of a key or value: an integer, or a text.
pub enum ElemSpec {
    Num(int),
    Text(Seq<u8>),
}

/// A key or value of the map under test: a fixed-width integer or a padded
/// string, resolved by configuration.
#[derive(Clone, PartialEq, Eq, Hash, Debug)]
pub enum Elem {
    Int(i32),
    Str(CustomString),
}

impl View for Elem {
    type V = ElemSpec;

    open spec fn view(&self) -> ElemSpec {
        match self {
            Elem::Int(v) => ElemSpec::Num(*v as int),
            Elem::Str(s) => ElemSpec::Text(s@),
        }
    }
}

/// The key (or value) that the integer `v` resolves to: a text element when
/// `string` is set, an integer element otherwise.
pub open spec fn spec_elem(string: bool, pad: bool, v: int) -> ElemSpec {
    if string {
        ElemSpec::Text(custom_text(pad, v))
    } else {
        ElemSpec::Num(v)
    }
}

/// Resolve the integer `v` to the configured element kind.
pub fn make_elem(string: bool, pad: bool, v: i32) -> (e: Elem)
    requires
        v >= 0,
    ensures
        e@ == spec_elem(string, pad, v as int),
{
    if string {
        Elem::Str(CustomString::from_int(v, pad))
    } else {
        Elem::Int(v)
    }
}

proof fn lemma_dec_len(v: int)
    requires
        v >= 0,
    ensures
        dec_digits(v).len() >= 1,
        v >= 10 ==> dec_digits(v).len() >= 2,
    decreases v,
{
    if v >= 10 {
        lemma_dec_len(v / 10);
    }
}

/// Two distinct non-negative integers have distinct decimal texts.
proof fn lemma_dec_injective(a: int, b: int)
    requires
        a >= 0,
        b >= 0,
        dec_digits(a) == dec_digits(b),
    ensures
        a == b,
    decreases a + b,
{
    lemma_dec_len(a);
    lemma_dec_len(b);
    if a < 10 && b < 10 {
        assert(dec_digits(a)[0] == (48 + a) as u8);
        assert(dec_digits(b)[0] == (48 + b) as u8);
        assert((48 + a) as u8 as int == 48 + a);
        assert((48 + b) as u8 as int == 48 + b);
    } else if a >= 10 && b >= 10 {
        assert(dec_digits(a) == dec_digits(a / 10).push((48 + a % 10) as u8));
        assert(dec_digits(b) == dec_digits(b / 10).push((48 + b % 10) as u8));
        assert(dec_digits(a).last() == (48 + a % 10) as u8);
        assert(dec_digits(b).last() == (48 + b % 10) as u8);
        assert(0 <= a % 10 < 10 && 0 <= b % 10 < 10);
        assert((48 + a % 10) as u8 as int == 48 + a % 10);
        assert((48 + b % 10) as u8 as int == 48 + b % 10);
        assert(a % 10 == b % 10);
        assert(dec_digits(a / 10) =~= dec_digits(a).drop_last());
        assert(dec_digits(b / 10) =~= dec_digits(b).drop_last());
        lemma_dec_injective(a / 10, b / 10);
        assert(a == 10 * (a / 10) + a % 10);
        assert(b == 10 * (b / 10) + b % 10);
    } else {
        assert(dec_digits(a).len() == dec_digits(b).len());
        assert(false);
    }
}

/// Appending the same fixed suffix keeps texts of distinct integers distinct.
proof fn lemma_text_injective(pad: bool, a: int, b: int)
    requires
        a >= 0,
        b >= 0,
        custom_text(pad, a) == custom_text(pad, b),
    ensures
        a == b,
{
    if pad {
        assert(custom_text(pad, a) == dec_digits(a) + pad_suffix());
        assert(custom_text(pad, b) == dec_digits(b) + pad_suffix());
        assert((dec_digits(a) + pad_suffix()).len() == dec_digits(a).len() + pad_suffix().len());
        assert((dec_digits(b) + pad_suffix()).len() == dec_digits(b).len() + pad_suffix().len());
        assert(dec_digits(a).len() == dec_digits(b).len());
        assert(dec_digits(a) =~= dec_digits(b)) by {
            assert(forall|i: int|
                0 <= i < dec_digits(a).len() ==> (dec_digits(a) + pad_suffix())[i]
                    == #[trigger] dec_digits(a)[i]);
            assert(forall|i: int|
                0 <= i < dec_digits(b).len() ==> (dec_digits(b) + pad_suffix())[i]
                    == #[trigger] dec_digits(b)[i]);
        };
    }
    lemma_dec_injective(a, b);
}

/// For a fixed configuration, the element resolved from an integer determines
/// that integer: the fill keys `0..n-1` are pairwise distinct.
pub proof fn lemma_elem_injective(string: bool, pad: bool, a: int, b: int)
    requires
        a >= 0,
        b >= 0,
        spec_elem(string, pad, a) == spec_elem(string, pad, b),
    ensures
        a == b,
{
    if string {
        lemma_text_injective(pad, a, b);
    }
}

} // verus!

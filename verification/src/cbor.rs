use vstd::prelude::*;

use vstd::utf8::encode_utf8;

use crate::jsonval::{arr_view, fields_view, JVal, JsonValue};

verus! {

/// Big-endian bytes of `n`, exactly `w` bytes wide.
pub open spec fn be_bytes(n: int, w: nat) -> Seq<u8>
    decreases w,
{
    if w == 0 {
        Seq::empty()
    } else {
        be_bytes(n / 256, (w - 1) as nat) + seq![(n % 256) as u8]
    }
}

/// 256 to the power `w`.
pub open spec fn pow256(w: nat) -> int
    decreases w,
{
    if w == 0 {
        1
    } else {
        256 * pow256((w - 1) as nat)
    }
}

/// Header of a wire item: major type and argument, shortest form.
pub open spec fn enc_head(major: int, n: int) -> Seq<u8> {
    if n < 24 {
        seq![(major * 32 + n) as u8]
    } else if n < 256 {
        seq![(major * 32 + 24) as u8] + be_bytes(n, 1)
    } else if n < 65536 {
        seq![(major * 32 + 25) as u8] + be_bytes(n, 2)
    } else if n < 0x100000000 {
        seq![(major * 32 + 26) as u8] + be_bytes(n, 4)
    } else {
        seq![(major * 32 + 27) as u8] + be_bytes(n, 8)
    }
}

/// The deterministic binary encoding of a value: definite lengths, shortest
/// integer heads, maps in field order.
pub open spec fn enc(v: JVal) -> Seq<u8>
    decreases v,
{
    match v {
        JVal::Null => seq![0xf6u8],
        JVal::Bool(b) => if b {
            seq![0xf5u8]
        } else {
            seq![0xf4u8]
        },
        JVal::Int(n) => if n >= 0 {
            enc_head(0, n)
        } else {
            enc_head(1, -1 - n)
        },
        JVal::Bytes(b) => enc_head(2, b.len() as int) + b,
        JVal::Text(s) => enc_text(s),
        JVal::Arr(items) => enc_head(4, items.len() as int) + enc_items(items),
        JVal::Obj(fields) => enc_head(5, fields.len() as int) + enc_fields(fields),
    }
}

/// Encoding of a text string: header plus UTF-8 bytes.
pub open spec fn enc_text(s: Seq<char>) -> Seq<u8> {
    enc_head(3, encode_utf8(s).len() as int) + encode_utf8(s)
}

/// Concatenated encodings of array items.
pub open spec fn enc_items(items: Seq<JVal>) -> Seq<u8>
    decreases items,
{
    if items.len() == 0 {
        Seq::empty()
    } else {
        enc(items[0]) + enc_items(items.drop_first())
    }
}

/// Concatenated encodings of object fields: text key, then value.
pub open spec fn enc_fields(fields: Seq<(Seq<char>, JVal)>) -> Seq<u8>
    decreases fields,
{
    if fields.len() == 0 {
        Seq::empty()
    } else {
        enc_text(fields[0].0) + enc(fields[0].1) + enc_fields(fields.drop_first())
    }
}

proof fn lemma_enc_items_snoc(items: Seq<JVal>, x: JVal)
    ensures
        enc_items(items.push(x)) == enc_items(items) + enc(x),
    decreases items.len(),
{
    if items.len() == 0 {
        assert(items.push(x).len() == 1);
        assert(items.push(x)[0] == x);
        assert(items.push(x).drop_first() =~= Seq::<JVal>::empty());
        assert(enc_items(items.push(x).drop_first()) == Seq::<u8>::empty());
        assert(enc_items(items.push(x)) == enc(x) + Seq::<u8>::empty());
        assert(enc(x) + Seq::<u8>::empty() =~= enc(x));
        assert(enc_items(items) + enc(x) =~= enc(x));
    } else {
        assert(items.push(x)[0] == items[0]);
        assert(items.push(x).drop_first() =~= items.drop_first().push(x));
        lemma_enc_items_snoc(items.drop_first(), x);
        assert(enc_items(items.push(x)) =~= enc_items(items) + enc(x));
    }
}

proof fn lemma_enc_fields_snoc(fields: Seq<(Seq<char>, JVal)>, f: (Seq<char>, JVal))
    ensures
        enc_fields(fields.push(f)) == enc_fields(fields) + enc_text(f.0) + enc(f.1),
    decreases fields.len(),
{
    if fields.len() == 0 {
        assert(fields.push(f).len() == 1);
        assert(fields.push(f)[0] == f);
        assert(fields.push(f).drop_first() =~= Seq::<(Seq<char>, JVal)>::empty());
        assert(enc_fields(fields.push(f).drop_first()) == Seq::<u8>::empty());
        assert(enc_fields(fields.push(f)) == enc_text(f.0) + enc(f.1) + Seq::<u8>::empty());
        assert(enc_fields(fields.push(f)) =~= enc_fields(fields) + enc_text(f.0) + enc(f.1));
    } else {
        assert(fields.push(f)[0] == fields[0]);
        assert(fields.push(f).drop_first() =~= fields.drop_first().push(f));
        lemma_enc_fields_snoc(fields.drop_first(), f);
        assert(enc_fields(fields.push(f)) =~= enc_fields(fields) + enc_text(f.0) + enc(f.1));
    }
}

/// Appends the `w`-byte big-endian form of `n`.
fn push_be(n: u64, w: usize, out: &mut Vec<u8>)
    requires
        w <= 8,
        n < pow256(w as nat),
    ensures
        final(out)@ == old(out)@ + be_bytes(n as int, w as nat),
    decreases w,
{
    if w == 0 {
        proof {
            assert(out@ =~= out@ + be_bytes(n as int, 0));
        }
    } else {
        proof {
            assert(pow256((w - 1) as nat) * 256 == pow256(w as nat));
            assert(n / 256 < pow256((w - 1) as nat)) by (nonlinear_arith)
                requires
                    n < pow256(w as nat),
                    pow256((w - 1) as nat) * 256 == pow256(w as nat),
                    pow256((w - 1) as nat) >= 1,
            ;
            lemma_pow256_pos((w - 1) as nat);
        }
        push_be(n / 256, w - 1, out);
        out.push((n % 256) as u8);
        proof {
            assert(out@ =~= old(out)@ + be_bytes(n as int, w as nat));
        }
    }
}

proof fn lemma_pow256_pos(w: nat)
    ensures
        pow256(w) >= 1,
    decreases w,
{
    if w > 0 {
        lemma_pow256_pos((w - 1) as nat);
    }
}

proof fn lemma_pow256_mono(a: nat, b: nat)
    requires
        a <= b,
    ensures
        pow256(a) <= pow256(b),
    decreases b,
{
    if a < b {
        lemma_pow256_mono(a, (b - 1) as nat);
        lemma_pow256_pos((b - 1) as nat);
    }
}

/// Appends the shortest header carrying `major` and argument `n`.
fn push_head(major: u8, n: u64, out: &mut Vec<u8>)
    requires
        major < 6,
    ensures
        final(out)@ == old(out)@ + enc_head(major as int, n as int),
{
    if n < 24 {
        out.push(major * 32 + (n as u8));
    } else if n < 256 {
        out.push(major * 32 + 24);
        proof {
            assert(pow256(0) == 1);
            assert(pow256(1) == 256);
        }
        push_be(n, 1, out);
        proof {
            assert(out@ =~= old(out)@ + enc_head(major as int, n as int));
        }
    } else if n < 65536 {
        out.push(major * 32 + 25);
        proof {
            assert(pow256(0) == 1);
            assert(pow256(1) == 256);
            assert(pow256(2) == 65536);
        }
        push_be(n, 2, out);
        proof {
            assert(out@ =~= old(out)@ + enc_head(major as int, n as int));
        }
    } else if n < 0x100000000 {
        out.push(major * 32 + 26);
        proof {
            assert(pow256(0) == 1);
            assert(pow256(1) == 256);
            assert(pow256(2) == 65536);
            assert(pow256(3) == 0x1000000);
            assert(pow256(4) == 0x100000000);
        }
        push_be(n, 4, out);
        proof {
            assert(out@ =~= old(out)@ + enc_head(major as int, n as int));
        }
    } else {
        out.push(major * 32 + 27);
        proof {
            assert(pow256(0) == 1);
            assert(pow256(1) == 256);
            assert(pow256(2) == 65536);
            assert(pow256(3) == 0x1000000);
            assert(pow256(4) == 0x100000000);
            assert(pow256(5) == 0x10000000000);
            assert(pow256(6) == 0x1000000000000);
            assert(pow256(7) == 0x100000000000000);
            assert(pow256(8) == 0x10000000000000000);
        }
        push_be(n, 8, out);
        proof {
            assert(out@ =~= old(out)@ + enc_head(major as int, n as int));
        }
    }
}

/// Appends the encoding of a string value.
fn push_text(s: &str, out: &mut Vec<u8>)
    ensures
        final(out)@ == old(out)@ + enc_text(s@),
{
    let bytes = s.as_bytes();
    push_head(3, bytes.len() as u64, out);
    let mut bv = vstd::slice::slice_to_vec(bytes);
    out.append(&mut bv);
    proof {
        assert(out@ =~= old(out)@ + enc_text(s@));
    }
}

/// Appends the encoding of `v`.
fn encode_into(v: &JsonValue, out: &mut Vec<u8>)
    ensures
        final(out)@ == old(out)@ + enc(v@),
    decreases v,
{
    match v {
        JsonValue::Null => {
            out.push(0xf6);
            proof {
                assert(out@ =~= old(out)@ + enc(v@));
            }
        },
        JsonValue::Bool(b) => {
            out.push(if *b {
                0xf5
            } else {
                0xf4
            });
            proof {
                assert(out@ =~= old(out)@ + enc(v@));
            }
        },
        JsonValue::Int(n) => {
            if *n >= 0 {
                push_head(0, *n as u64, out);
            } else {
                let m: i64 = -1 - *n;
                push_head(1, m as u64, out);
            }
        },
        JsonValue::UInt(n) => {
            push_head(0, *n, out);
        },
        JsonValue::Text(s) => {
            push_text(s.as_str(), out);
        },
        JsonValue::Bytes(b) => {
            push_head(2, b.len() as u64, out);
            let mut bv = vstd::slice::slice_to_vec(b.as_slice());
            out.append(&mut bv);
            proof {
                assert(out@ =~= old(out)@ + enc(v@));
            }
        },
        JsonValue::Array(items) => {
            let n = items.len();
            push_head(4, n as u64, out);
            let ghost av = arr_view(items@);
            let ghost base = out@;
            let mut i: usize = 0;
            proof {
                assert(av.take(0) =~= Seq::<JVal>::empty());
                assert(base =~= base + enc_items(av.take(0)));
            }
            while i < n
                invariant
                    *v == JsonValue::Array(*items),
                    n == items.len(),
                    i <= n,
                    av == arr_view(items@),
                    out@ == base + enc_items(av.take(i as int)),
                decreases n - i,
            {
                proof {
                    assert(decreases_to!(*v => v->Array_0));
                    assert(decreases_to!(v->Array_0 => v->Array_0@));
                    assert(decreases_to!(v->Array_0@ => v->Array_0@[i as int]));
                }
                encode_into(&items[i], out);
                proof {
                    assert(av.take(i as int).push(av[i as int]) =~= av.take(i as int + 1));
                    lemma_enc_items_snoc(av.take(i as int), av[i as int]);
                }
                i += 1;
            }
            proof {
                assert(av.take(n as int) =~= av);
                assert(out@ =~= old(out)@ + enc(v@));
            }
        },
        JsonValue::Object(fields) => {
            let n = fields.len();
            push_head(5, n as u64, out);
            let ghost fv = fields_view(fields@);
            let ghost base = out@;
            let mut i: usize = 0;
            proof {
                assert(fv.take(0) =~= Seq::<(Seq<char>, JVal)>::empty());
                assert(base =~= base + enc_fields(fv.take(0)));
            }
            while i < n
                invariant
                    *v == JsonValue::Object(*fields),
                    n == fields.len(),
                    i <= n,
                    fv == fields_view(fields@),
                    out@ == base + enc_fields(fv.take(i as int)),
                decreases n - i,
            {
                push_text(fields[i].0.as_str(), out);
                proof {
                    assert(decreases_to!(*v => v->Object_0));
                    assert(decreases_to!(v->Object_0 => v->Object_0@));
                    assert(decreases_to!(v->Object_0@ => v->Object_0@[i as int]));
                    assert(decreases_to!(v->Object_0@[i as int] => v->Object_0@[i as int].1));
                }
                encode_into(&fields[i].1, out);
                proof {
                    assert(fv.take(i as int).push(fv[i as int]) =~= fv.take(i as int + 1));
                    lemma_enc_fields_snoc(fv.take(i as int), fv[i as int]);
                    assert(out@ =~= base + enc_fields(fv.take(i as int + 1)));
                }
                i += 1;
            }
            proof {
                assert(fv.take(n as int) =~= fv);
                assert(out@ =~= old(out)@ + enc(v@));
            }
        },
    }
}

/// Encodes a value into its deterministic wire bytes.
pub fn cbor_encode(v: &JsonValue) -> (r: Vec<u8>)
    ensures
        r@ == enc(v@),
{
    let mut out: Vec<u8> = Vec::new();
    encode_into(v, &mut out);
    out
}


/// Values the decoder can hand back: integers within its range, at every
/// level. Everything the executable tree can hold satisfies this.
pub open spec fn wire_wf(v: JVal) -> bool
    decreases v, 1int,
{
    match v {
        JVal::Int(n) => i64::MIN as int <= n <= u64::MAX as int,
        JVal::Arr(items) => wire_wf_items(items),
        JVal::Obj(fields) => wire_wf_fields(fields),
        _ => true,
    }
}

/// Wire well-formedness of array items.
pub open spec fn wire_wf_items(items: Seq<JVal>) -> bool
    decreases items, 0int,
{
    if items.len() == 0 {
        true
    } else {
        wire_wf(items[0]) && wire_wf_items(items.drop_first())
    }
}

/// Wire well-formedness of object field values.
pub open spec fn wire_wf_fields(fields: Seq<(Seq<char>, JVal)>) -> bool
    decreases fields, 2int,
{
    if fields.len() == 0 {
        true
    } else {
        wire_wf(fields[0].1) && wire_wf_fields(fields.drop_first())
    }
}

proof fn lemma_wire_wf_items_pointwise(items: Seq<JVal>)
    ensures
        wire_wf_items(items) <==> (forall|j: int|
            0 <= j < items.len() ==> wire_wf(#[trigger] items[j])),
    decreases items.len(),
{
    if items.len() > 0 {
        lemma_wire_wf_items_pointwise(items.drop_first());
        assert(forall|j: int|
            1 <= j < items.len() ==> items.drop_first()[j - 1] == #[trigger] items[j]);
    }
}

proof fn lemma_wire_wf_fields_pointwise(fields: Seq<(Seq<char>, JVal)>)
    ensures
        wire_wf_fields(fields) <==> (forall|j: int|
            0 <= j < fields.len() ==> wire_wf((#[trigger] fields[j]).1)),
    decreases fields.len(),
{
    if fields.len() > 0 {
        lemma_wire_wf_fields_pointwise(fields.drop_first());
        assert(forall|j: int|
            1 <= j < fields.len() ==> fields.drop_first()[j - 1] == #[trigger] fields[j]);
    }
}

/// Every value the executable tree can hold is wire well-formed.
pub proof fn lemma_exec_wire_wf(v: JsonValue)
    ensures
        wire_wf(v@),
    decreases v,
{
    match v {
        JsonValue::Array(items) => {
            assert forall|j: int| 0 <= j < items@.len() implies wire_wf(
                #[trigger] arr_view(items@)[j],
            ) by {
                assert(decreases_to!(v => items));
                assert(decreases_to!(items => items@));
                assert(decreases_to!(items@ => items@[j]));
                lemma_exec_wire_wf(items@[j]);
            }
            lemma_wire_wf_items_pointwise(arr_view(items@));
        },
        JsonValue::Object(fields) => {
            assert forall|j: int| 0 <= j < fields@.len() implies wire_wf(
                (#[trigger] fields_view(fields@)[j]).1,
            ) by {
                assert(decreases_to!(v => fields));
                assert(decreases_to!(fields => fields@));
                assert(decreases_to!(fields@ => fields@[j]));
                assert(decreases_to!(fields@[j] => fields@[j].1));
                lemma_exec_wire_wf(fields@[j].1);
            }
            lemma_wire_wf_fields_pointwise(fields_view(fields@));
        },
        _ => {},
    }
}

/// Inside a buffer region known to hold `a + b + c`, the middle part sits
/// at its offset.
proof fn lemma_concat_window(bytes: Seq<u8>, base: int, a: Seq<u8>, b: Seq<u8>, c: Seq<u8>)
    requires
        0 <= base,
        base + (a + b + c).len() <= bytes.len(),
        bytes.subrange(base, base + (a + b + c).len()) == a + b + c,
    ensures
        bytes.subrange(base + a.len(), base + a.len() + b.len()) == b,
{
    assert forall|j: int|
        0 <= j < b.len() implies bytes.subrange(
        base + a.len(),
        base + a.len() + b.len(),
    )[j] == b[j] by {
        assert((a + b + c)[a.len() + j] == b[j]);
        assert(bytes.subrange(base, base + (a + b + c).len())[a.len() + j] == (a + b + c)[a.len()
            + j]);
    }
    assert(bytes.subrange(base + a.len(), base + a.len() + b.len()) =~= b);
}

proof fn lemma_div32(m: int, k: int, b: int)
    requires
        b == m * 32 + k,
        0 <= k < 32,
        0 <= m,
    ensures
        b / 32 == m,
        b % 32 == k,
{
    assert(b / 32 == m && b % 32 == k) by (nonlinear_arith)
        requires
            b == m * 32 + k,
            0 <= k < 32,
            0 <= m,
    ;
}

proof fn lemma_be_bytes_len(n: int, w: nat)
    ensures
        be_bytes(n, w).len() == w,
    decreases w,
{
    if w > 0 {
        lemma_be_bytes_len(n / 256, (w - 1) as nat);
    }
}

proof fn lemma_be_bytes_injective(a: int, b: int, w: nat)
    requires
        0 <= a < pow256(w),
        0 <= b < pow256(w),
        be_bytes(a, w) == be_bytes(b, w),
    ensures
        a == b,
    decreases w,
{
    if w == 0 {
    } else {
        lemma_be_bytes_len(a / 256, (w - 1) as nat);
        lemma_be_bytes_len(b / 256, (w - 1) as nat);
        let ba = be_bytes(a, w);
        let bb = be_bytes(b, w);
        assert(ba[w - 1] == (a % 256) as u8);
        assert(bb[w - 1] == (b % 256) as u8);
        assert(a % 256 == b % 256);
        assert(be_bytes(a / 256, (w - 1) as nat) =~= ba.take(w - 1));
        assert(be_bytes(b / 256, (w - 1) as nat) =~= bb.take(w - 1));
        assert(pow256((w - 1) as nat) * 256 == pow256(w));
        assert(a / 256 < pow256((w - 1) as nat)) by (nonlinear_arith)
            requires
                a < pow256(w),
                pow256((w - 1) as nat) * 256 == pow256(w),
        ;
        assert(b / 256 < pow256((w - 1) as nat)) by (nonlinear_arith)
            requires
                b < pow256(w),
                pow256((w - 1) as nat) * 256 == pow256(w),
        ;
        lemma_be_bytes_injective(a / 256, b / 256, (w - 1) as nat);
    }
}

/// The length of a header per argument range.
pub open spec fn head_len(n: int) -> int {
    if n < 24 {
        1
    } else if n < 256 {
        2
    } else if n < 65536 {
        3
    } else if n < 0x100000000 {
        5
    } else {
        9
    }
}

proof fn lemma_enc_head_len(m: int, n: int)
    requires
        0 <= n,
    ensures
        enc_head(m, n).len() == head_len(n),
{
    if n < 24 {
    } else if n < 256 {
        lemma_be_bytes_len(n, 1);
    } else if n < 65536 {
        lemma_be_bytes_len(n, 2);
    } else if n < 0x100000000 {
        lemma_be_bytes_len(n, 4);
    } else {
        lemma_be_bytes_len(n, 8);
    }
}


/// The minor marker a header argument is spelled with.
pub open spec fn head_marker(n: int) -> int {
    if n < 24 {
        n
    } else if n < 256 {
        24
    } else if n < 65536 {
        25
    } else if n < 0x100000000 {
        26
    } else {
        27
    }
}

proof fn lemma_enc_head_first(m: int, n: int)
    requires
        0 <= m < 6,
        0 <= n,
    ensures
        enc_head(m, n).len() >= 1,
        enc_head(m, n)[0] as int == m * 32 + head_marker(n),
        0 <= head_marker(n) < 28,
{
    lemma_enc_head_len(m, n);
}

proof fn lemma_enc_len_pos(v: JVal)
    ensures
        enc(v).len() >= 1,
{
    match v {
        JVal::Int(n) => {
            if n >= 0 {
                lemma_enc_head_len(0, n);
            } else {
                lemma_enc_head_len(1, -1 - n);
            }
        },
        JVal::Bytes(b) => {
            lemma_enc_head_len(2, b.len() as int);
        },
        JVal::Text(t) => {
            lemma_enc_head_len(3, encode_utf8(t).len() as int);
        },
        JVal::Arr(items) => {
            lemma_enc_head_len(4, items.len() as int);
        },
        JVal::Obj(fields) => {
            lemma_enc_head_len(5, fields.len() as int);
        },
        _ => {},
    }
}

proof fn lemma_enc_items_len_ge(items: Seq<JVal>)
    ensures
        enc_items(items).len() >= items.len(),
    decreases items.len(),
{
    if items.len() > 0 {
        lemma_enc_len_pos(items[0]);
        lemma_enc_items_len_ge(items.drop_first());
    }
}

proof fn lemma_enc_fields_len_ge(fields: Seq<(Seq<char>, JVal)>)
    ensures
        enc_fields(fields).len() >= fields.len(),
    decreases fields.len(),
{
    if fields.len() > 0 {
        lemma_enc_head_len(3, encode_utf8(fields[0].0).len() as int);
        lemma_enc_len_pos(fields[0].1);
        lemma_enc_fields_len_ge(fields.drop_first());
    }
}

proof fn lemma_enc_items_concat(a: Seq<JVal>, b: Seq<JVal>)
    ensures
        enc_items(a + b) == enc_items(a) + enc_items(b),
    decreases a.len(),
{
    if a.len() == 0 {
        assert(a + b =~= b);
        assert(enc_items(a) + enc_items(b) =~= enc_items(b));
    } else {
        assert((a + b)[0] == a[0]);
        assert((a + b).drop_first() =~= a.drop_first() + b);
        lemma_enc_items_concat(a.drop_first(), b);
        assert(enc_items(a + b) =~= enc_items(a) + enc_items(b));
    }
}

proof fn lemma_enc_fields_concat(a: Seq<(Seq<char>, JVal)>, b: Seq<(Seq<char>, JVal)>)
    ensures
        enc_fields(a + b) == enc_fields(a) + enc_fields(b),
    decreases a.len(),
{
    if a.len() == 0 {
        assert(a + b =~= b);
        assert(enc_fields(a) + enc_fields(b) =~= enc_fields(b));
    } else {
        assert((a + b)[0] == a[0]);
        assert((a + b).drop_first() =~= a.drop_first() + b);
        lemma_enc_fields_concat(a.drop_first(), b);
        assert(enc_fields(a + b) =~= enc_fields(a) + enc_fields(b));
    }
}

proof fn lemma_pow256_vals()
    ensures
        pow256(0) == 1,
        pow256(1) == 256,
        pow256(2) == 65536,
        pow256(3) == 0x1000000,
        pow256(4) == 0x100000000,
        pow256(5) == 0x10000000000,
        pow256(6) == 0x1000000000000,
        pow256(7) == 0x100000000000000,
        pow256(8) == 0x10000000000000000,
{
    assert(pow256(0) == 1);
    assert(pow256(1) == 256);
    assert(pow256(2) == 65536);
    assert(pow256(3) == 0x1000000);
    assert(pow256(4) == 0x100000000);
    assert(pow256(5) == 0x10000000000);
    assert(pow256(6) == 0x1000000000000);
    assert(pow256(7) == 0x100000000000000);
    assert(pow256(8) == 0x10000000000000000);
}

/// Relies on String::from_utf8: it succeeds exactly on valid UTF-8, and on
/// success the returned String holds exactly the given bytes.
#[verifier::external_body]
fn utf8_to_string(bytes: Vec<u8>) -> (r: Option<String>)
    ensures
        r matches Some(s) ==> encode_utf8(s@) == bytes@,
        vstd::utf8::valid_utf8(bytes@) ==> r is Some,
{
    String::from_utf8(bytes).ok()
}

/// Reads `w` big-endian bytes; fails only when the buffer runs out.
fn read_be(bytes: &Vec<u8>, pos: usize, w: usize) -> (r: Option<(u64, usize)>)
    requires
        pos <= bytes@.len(),
        w <= 8,
    ensures
        r matches Some(p) ==> {
            &&& p.1 == pos + w
            &&& p.1 <= bytes@.len()
            &&& p.0 < pow256(w as nat)
            &&& bytes@.subrange(pos as int, p.1 as int) == be_bytes(p.0 as int, w as nat)
        },
        pos + w <= bytes@.len() ==> r is Some,
    decreases w,
{
    if w == 0 {
        proof {
            assert(bytes@.subrange(pos as int, pos as int) =~= be_bytes(0, 0));
        }
        return Some((0, pos));
    }
    match read_be(bytes, pos, w - 1) {
        None => None,
        Some((hi, p1)) => {
            if p1 >= bytes.len() {
                return None;
            }
            let low = bytes[p1];
            proof {
                lemma_pow256_vals();
                lemma_pow256_mono((w - 1) as nat, 7);
                assert(pow256((w - 1) as nat) * 256 == pow256(w as nat));
                assert(hi * 256 + 255 < pow256(w as nat)) by (nonlinear_arith)
                    requires
                        hi < pow256((w - 1) as nat),
                        pow256((w - 1) as nat) * 256 == pow256(w as nat),
                ;
            }
            let n = hi * 256 + (low as u64);
            proof {
                assert(n as int / 256 == hi);
                assert(n as int % 256 == low);
                assert(bytes@.subrange(pos as int, p1 + 1) =~= bytes@.subrange(
                    pos as int,
                    p1 as int,
                ) + seq![low]);
                assert(bytes@.subrange(pos as int, p1 + 1) == be_bytes(n as int, w as nat));
            }
            Some((n, p1 + 1))
        },
    }
}

/// Reads one item header; only shortest-form heads are accepted. When the
/// bytes at `pos` are known to start with a particular header, that header
/// is what comes back.
fn decode_head(bytes: &Vec<u8>, pos: usize, Ghost(eh): Ghost<Option<(int, int)>>) -> (r: Option<
    (u8, u64, usize),
>)
    requires
        pos <= bytes@.len(),
        eh matches Some(mn) ==> {
            &&& 0 <= mn.0 < 6
            &&& 0 <= mn.1 < 0x10000000000000000
            &&& pos + enc_head(mn.0, mn.1).len() <= bytes@.len()
            &&& bytes@.subrange(pos as int, pos + enc_head(mn.0, mn.1).len()) == enc_head(
                mn.0,
                mn.1,
            )
        },
    ensures
        r matches Some(h) ==> {
            &&& h.0 < 6
            &&& pos < h.2 <= bytes@.len()
            &&& bytes@.subrange(pos as int, h.2 as int) == enc_head(h.0 as int, h.1 as int)
        },
        eh matches Some(mn) ==> (r matches Some(h) && h.0 as int == mn.0 && h.1 as int == mn.1
            && h.2 as int == pos + enc_head(mn.0, mn.1).len()),
{
    proof {
        if eh is Some {
                let mn = eh->0;
            lemma_enc_head_first(mn.0, mn.1);
            lemma_enc_head_len(mn.0, mn.1);
            assert(bytes@.subrange(pos as int, pos + enc_head(mn.0, mn.1).len())[0] == bytes@[
                pos as int
            ]);
            lemma_div32(mn.0, head_marker(mn.1), mn.0 * 32 + head_marker(mn.1));
            lemma_pow256_vals();
        }
    }
    if pos >= bytes.len() {
        return None;
    }
    let b = bytes[pos];
    let major = b / 32;
    proof {
        if eh is Some {
                let mn = eh->0;
            assert(b as int == mn.0 * 32 + head_marker(mn.1));
            assert(major as int == mn.0 && (b % 32) as int == head_marker(mn.1));
        }
    }
    if major >= 6 {
        return None;
    }
    let minor = b % 32;
    if minor < 24 {
        proof {
            assert(bytes@.subrange(pos as int, pos + 1) =~= seq![b]);
            assert(b == major * 32 + minor);
            if eh is Some {
                let mn = eh->0;
                assert(head_marker(mn.1) == minor);
                assert(mn.1 < 24 && mn.1 == minor);
            }
        }
        Some((major, minor as u64, pos + 1))
    } else if minor == 24 {
        proof {
            if eh is Some {
                let mn = eh->0;
                assert(head_marker(mn.1) == 24);
                assert(24 <= mn.1 < 256);
                lemma_be_bytes_len(mn.1, 1);
                lemma_enc_head_len(mn.0, mn.1);
                assert(enc_head(mn.0, mn.1) == seq![(mn.0 * 32 + 24) as u8] + be_bytes(
                    mn.1,
                    1,
                ));
                assert((mn.0 * 32 + 24) as u8 == b);
                assert(seq![(mn.0 * 32 + 24) as u8] + be_bytes(mn.1, 1) =~= seq![
                    (mn.0 * 32 + 24) as u8,
                ] + be_bytes(mn.1, 1) + Seq::<u8>::empty());
                lemma_concat_window(
                    bytes@,
                    pos as int,
                    seq![(mn.0 * 32 + 24) as u8],
                    be_bytes(mn.1, 1),
                    Seq::empty(),
                );
                assert(bytes@.subrange(pos + 1, pos + 2) == be_bytes(mn.1, 1));
            }
        }
        match read_be(bytes, pos + 1, 1) {
            None => None,
            Some((n, p2)) => {
                proof {
                    lemma_pow256_vals();
                    if eh is Some {
                let mn = eh->0;
                        lemma_be_bytes_injective(n as int, mn.1, 1);
                    }
                }
                if n < 24 {
                    return None;
                }
                proof {
                    assert(bytes@.subrange(pos as int, p2 as int) =~= seq![b] + bytes@.subrange(
                        pos + 1,
                        p2 as int,
                    ));
                }
                Some((major, n, p2))
            },
        }
    } else if minor == 25 {
        proof {
            if eh is Some {
                let mn = eh->0;
                assert(head_marker(mn.1) == 25);
                assert(256 <= mn.1 < 65536);
                lemma_be_bytes_len(mn.1, 2);
                lemma_enc_head_len(mn.0, mn.1);
                assert(enc_head(mn.0, mn.1) == seq![(mn.0 * 32 + 25) as u8] + be_bytes(
                    mn.1,
                    2,
                ));
                assert((mn.0 * 32 + 25) as u8 == b);
                assert(seq![(mn.0 * 32 + 25) as u8] + be_bytes(mn.1, 2) =~= seq![
                    (mn.0 * 32 + 25) as u8,
                ] + be_bytes(mn.1, 2) + Seq::<u8>::empty());
                lemma_concat_window(
                    bytes@,
                    pos as int,
                    seq![(mn.0 * 32 + 25) as u8],
                    be_bytes(mn.1, 2),
                    Seq::empty(),
                );
                assert(bytes@.subrange(pos + 1, pos + 3) == be_bytes(mn.1, 2));
            }
        }
        match read_be(bytes, pos + 1, 2) {
            None => None,
            Some((n, p2)) => {
                proof {
                    lemma_pow256_vals();
                    if eh is Some {
                let mn = eh->0;
                        lemma_be_bytes_injective(n as int, mn.1, 2);
                    }
                }
                if n < 256 {
                    return None;
                }
                proof {
                    assert(bytes@.subrange(pos as int, p2 as int) =~= seq![b] + bytes@.subrange(
                        pos + 1,
                        p2 as int,
                    ));
                }
                Some((major, n, p2))
            },
        }
    } else if minor == 26 {
        proof {
            if eh is Some {
                let mn = eh->0;
                assert(head_marker(mn.1) == 26);
                assert(65536 <= mn.1 < 0x100000000);
                lemma_be_bytes_len(mn.1, 4);
                lemma_enc_head_len(mn.0, mn.1);
                assert(enc_head(mn.0, mn.1) == seq![(mn.0 * 32 + 26) as u8] + be_bytes(
                    mn.1,
                    4,
                ));
                assert((mn.0 * 32 + 26) as u8 == b);
                assert(seq![(mn.0 * 32 + 26) as u8] + be_bytes(mn.1, 4) =~= seq![
                    (mn.0 * 32 + 26) as u8,
                ] + be_bytes(mn.1, 4) + Seq::<u8>::empty());
                lemma_concat_window(
                    bytes@,
                    pos as int,
                    seq![(mn.0 * 32 + 26) as u8],
                    be_bytes(mn.1, 4),
                    Seq::empty(),
                );
                assert(bytes@.subrange(pos + 1, pos + 5) == be_bytes(mn.1, 4));
            }
        }
        match read_be(bytes, pos + 1, 4) {
            None => None,
            Some((n, p2)) => {
                proof {
                    lemma_pow256_vals();
                    if eh is Some {
                let mn = eh->0;
                        lemma_be_bytes_injective(n as int, mn.1, 4);
                    }
                }
                if n < 65536 {
                    return None;
                }
                proof {
                    assert(bytes@.subrange(pos as int, p2 as int) =~= seq![b] + bytes@.subrange(
                        pos + 1,
                        p2 as int,
                    ));
                }
                Some((major, n, p2))
            },
        }
    } else if minor == 27 {
        proof {
            if eh is Some {
                let mn = eh->0;
                assert(head_marker(mn.1) == 27);
                assert(0x100000000 <= mn.1);
                lemma_be_bytes_len(mn.1, 8);
                lemma_enc_head_len(mn.0, mn.1);
                assert(enc_head(mn.0, mn.1) == seq![(mn.0 * 32 + 27) as u8] + be_bytes(
                    mn.1,
                    8,
                ));
                assert((mn.0 * 32 + 27) as u8 == b);
                assert(seq![(mn.0 * 32 + 27) as u8] + be_bytes(mn.1, 8) =~= seq![
                    (mn.0 * 32 + 27) as u8,
                ] + be_bytes(mn.1, 8) + Seq::<u8>::empty());
                lemma_concat_window(
                    bytes@,
                    pos as int,
                    seq![(mn.0 * 32 + 27) as u8],
                    be_bytes(mn.1, 8),
                    Seq::empty(),
                );
                assert(bytes@.subrange(pos + 1, pos + 9) == be_bytes(mn.1, 8));
            }
        }
        match read_be(bytes, pos + 1, 8) {
            None => None,
            Some((n, p2)) => {
                proof {
                    lemma_pow256_vals();
                    if eh is Some {
                let mn = eh->0;
                        lemma_be_bytes_injective(n as int, mn.1, 8);
                    }
                }
                if n < 0x100000000 {
                    return None;
                }
                proof {
                    assert(bytes@.subrange(pos as int, p2 as int) =~= seq![b] + bytes@.subrange(
                        pos + 1,
                        p2 as int,
                    ));
                }
                Some((major, n, p2))
            },
        }
    } else {
        None
    }
}

/// Copies `len` bytes starting at `pos`.
fn read_chunk(bytes: &Vec<u8>, pos: usize, len: usize) -> (r: Vec<u8>)
    requires
        pos + len <= bytes@.len(),
    ensures
        r@ == bytes@.subrange(pos as int, pos + len),
{
    let bl = bytes.len();
    let mut buf: Vec<u8> = Vec::new();
    let mut i: usize = 0;
    while i < len
        invariant
            bl == bytes@.len(),
            pos + len <= bl,
            i <= len,
            buf@.len() == i,
            forall|j: int| 0 <= j < i ==> buf@[j] == bytes@[pos + j],
        decreases len - i,
    {
        buf.push(bytes[pos + i]);
        i += 1;
    }
    proof {
        assert(buf@ =~= bytes@.subrange(pos as int, pos + len));
    }
    buf
}

/// The header a non-simple value is encoded under.
pub open spec fn head_of(v: JVal) -> Option<(int, int)> {
    match v {
        JVal::Int(n) => if n >= 0 {
            Some((0, n))
        } else {
            Some((1, -1 - n))
        },
        JVal::Bytes(b) => Some((2, b.len() as int)),
        JVal::Text(t) => Some((3, encode_utf8(t).len() as int)),
        JVal::Arr(items) => Some((4, items.len() as int)),
        JVal::Obj(fields) => Some((5, fields.len() as int)),
        _ => None,
    }
}

/// The payload that follows a value's header.
pub open spec fn payload_of(v: JVal) -> Seq<u8> {
    match v {
        JVal::Bytes(b) => b,
        JVal::Text(t) => encode_utf8(t),
        JVal::Arr(items) => enc_items(items),
        JVal::Obj(fields) => enc_fields(fields),
        _ => Seq::empty(),
    }
}

proof fn lemma_enc_shape(v: JVal)
    requires
        head_of(v) is Some,
    ensures
        ({
            let mn = head_of(v)->0;
            &&& 0 <= mn.0 < 6
            &&& 0 <= mn.1
            &&& enc(v) == enc_head(mn.0, mn.1) + payload_of(v)
            &&& (v is Bytes || v is Text ==> payload_of(v).len() == mn.1)
            &&& (v is Arr || v is Obj ==> payload_of(v).len() >= mn.1)
            &&& (v is Int ==> payload_of(v).len() == 0)
        }),
{
    let mn = head_of(v)->0;
    match v {
        JVal::Int(n) => {
            assert(enc(v) =~= enc_head(mn.0, mn.1) + payload_of(v));
        },
        JVal::Bytes(b) => {
            assert(enc(v) =~= enc_head(mn.0, mn.1) + payload_of(v));
        },
        JVal::Text(t) => {
            assert(enc(v) =~= enc_head(mn.0, mn.1) + payload_of(v));
        },
        JVal::Arr(items) => {
            lemma_enc_items_len_ge(items);
            assert(enc(v) =~= enc_head(mn.0, mn.1) + payload_of(v));
        },
        JVal::Obj(fields) => {
            lemma_enc_fields_len_ge(fields);
            assert(enc(v) =~= enc_head(mn.0, mn.1) + payload_of(v));
        },
        _ => {},
    }
}

/// Decodes one item at `pos`. Accepts exactly the deterministic encodings
/// that `enc` produces: on success, the consumed bytes are the encoding of
/// the returned value; and when the bytes at `pos` are known to start with
/// the encoding of a wire value, that value is what comes back.
#[verifier::rlimit(100)]
fn decode_at(bytes: &Vec<u8>, pos: usize, Ghost(expect): Ghost<Option<JVal>>) -> (r: Option<
    (JsonValue, usize),
>)
    requires
        pos <= bytes@.len(),
        expect matches Some(v) ==> {
            &&& wire_wf(v)
            &&& pos + enc(v).len() <= bytes@.len()
            &&& bytes@.subrange(pos as int, pos + enc(v).len()) == enc(v)
        },
    ensures
        r matches Some(p) ==> {
            &&& pos < p.1 <= bytes@.len()
            &&& bytes@.subrange(pos as int, p.1 as int) == enc(p.0@)
        },
        expect matches Some(v) ==> (r matches Some(p) && p.0@ == v && p.1 as int == pos + enc(
            v,
        ).len()),
    decreases bytes@.len() - pos,
{
    proof {
        if expect is Some {
            let v = expect->0;
            lemma_enc_len_pos(v);
            assert(bytes@.subrange(pos as int, pos + enc(v).len())[0] == bytes@[pos as int]);
            if head_of(v) is Some {
                lemma_enc_shape(v);
                lemma_enc_head_first((head_of(v)->0).0, (head_of(v)->0).1);
                assert(enc(v)[0] == enc_head((head_of(v)->0).0, (head_of(v)->0).1)[0]);
            }
        }
    }
    if pos >= bytes.len() {
        proof {
            if expect is Some {
                assert(false);
            }
        }
        return None;
    }
    let b = bytes[pos];
    if b == 0xf6 {
        proof {
            assert(bytes@.subrange(pos as int, pos + 1) =~= seq![0xf6u8]);
            if expect is Some {
                let v = expect->0;
                assert(enc(v)[0] == 0xf6);
                if head_of(v) is Some {
                    assert(enc(v)[0] < 192);
                }
                assert(v is Null);
            }
        }
        return Some((JsonValue::Null, pos + 1));
    }
    if b == 0xf5 {
        proof {
            assert(bytes@.subrange(pos as int, pos + 1) =~= seq![0xf5u8]);
            if expect is Some {
                let v = expect->0;
                if head_of(v) is Some {
                    assert(enc(v)[0] < 192);
                }
                assert(v == JVal::Bool(true));
            }
        }
        return Some((JsonValue::Bool(true), pos + 1));
    }
    if b == 0xf4 {
        proof {
            assert(bytes@.subrange(pos as int, pos + 1) =~= seq![0xf4u8]);
            if expect is Some {
                let v = expect->0;
                if head_of(v) is Some {
                    assert(enc(v)[0] < 192);
                }
                assert(v == JVal::Bool(false));
            }
        }
        return Some((JsonValue::Bool(false), pos + 1));
    }
    let ghost eh: Option<(int, int)> = if expect is Some {
        head_of(expect->0)
    } else {
        None
    };
    proof {
        if expect is Some {
            let v = expect->0;
            assert(!(v is Null) && !(v is Bool));
            assert(head_of(v) is Some);
            let mn = head_of(v)->0;
            lemma_enc_head_len(mn.0, mn.1);
            // the argument fits in eight bytes: either the integer range or
            // the payload budget bounds it
            if v is Int {
                assert(mn.1 < 0x10000000000000000);
            } else {
                assert(payload_of(v).len() >= mn.1);
                assert(enc(v).len() >= mn.1);
                assert(mn.1 < 0x10000000000000000);
            }
            // the header is a prefix of the bytes
            assert(bytes@.subrange(pos as int, pos + enc_head(mn.0, mn.1).len()) =~= enc_head(
                mn.0,
                mn.1,
            )) by {
                assert(forall|j: int|
                    0 <= j < enc(v).len() ==> bytes@.subrange(pos as int, pos + enc(v).len())[j]
                        == #[trigger] enc(v)[j]);
                assert(forall|j: int|
                    0 <= j < enc_head(mn.0, mn.1).len() ==> #[trigger] enc(v)[j] == enc_head(
                        mn.0,
                        mn.1,
                    )[j]);
            }
        }
    }
    let (major, n, p1) = match decode_head(bytes, pos, Ghost(eh)) {
        Some(h) => h,
        None => {
            proof {
                if expect is Some {
                    assert(false);
                }
            }
            return None;
        },
    };
    proof {
        if expect is Some {
            let v = expect->0;
            let mn = head_of(v)->0;
            assert(major as int == mn.0 && n as int == mn.1);
            assert(p1 as int == pos + enc_head(mn.0, mn.1).len());
            // the payload is the rest of the value's bytes
            assert(bytes@.subrange(p1 as int, pos + enc(v).len()) =~= payload_of(v)) by {
                assert(forall|j: int|
                    0 <= j < enc(v).len() ==> bytes@.subrange(pos as int, pos + enc(v).len())[j]
                        == #[trigger] enc(v)[j]);
                assert(forall|j: int|
                    0 <= j < payload_of(v).len() ==> #[trigger] payload_of(v)[j] == enc(v)[
                        enc_head(mn.0, mn.1).len() + j
                    ]);
            }
        }
    }
    if major == 0 {
        proof {
            if expect is Some {
                let v = expect->0;
                assert(v is Int && v->Int_0 >= 0 && v->Int_0 == n as int);
                assert(enc(v).len() == enc_head(0, n as int).len());
            }
        }
        Some((JsonValue::UInt(n), p1))
    } else if major == 1 {
        proof {
            if expect is Some {
                let v = expect->0;
                assert(v is Int && v->Int_0 < 0);
                assert(n as int == -1 - v->Int_0);
                assert(v->Int_0 >= i64::MIN as int);
                assert(n <= 0x7fffffffffffffff);
            }
        }
        if n > 0x7fffffffffffffff {
            proof {
                if expect is Some {
                    assert(false);
                }
            }
            return None;
        }
        let v: i64 = -1 - (n as i64);
        Some((JsonValue::Int(v), p1))
    } else if major == 2 || major == 3 {
        let rem = bytes.len() - p1;
        proof {
            if expect is Some {
                let v = expect->0;
                assert(payload_of(v).len() == n as int);
                assert(p1 + n as int <= bytes@.len());
            }
        }
        if n > rem as u64 {
            proof {
                if expect is Some {
                    assert(false);
                }
            }
            return None;
        }
        let len = n as usize;
        let buf = read_chunk(bytes, p1, len);
        proof {
            assert(bytes@.subrange(pos as int, p1 + len) =~= bytes@.subrange(
                pos as int,
                p1 as int,
            ) + bytes@.subrange(p1 as int, p1 + len));
            if expect is Some {
                let v = expect->0;
                assert(bytes@.subrange(p1 as int, p1 + len) =~= payload_of(v));
                assert(buf@ == payload_of(v));
            }
        }
        if major == 2 {
            proof {
                if expect is Some {
                    assert(expect->0 is Bytes);
                    assert(expect->0 == JVal::Bytes(buf@));
                }
            }
            let ghost bv = buf@;
            let v = JsonValue::Bytes(buf);
            proof {
                assert(v@ == JVal::Bytes(bv));
            }
            Some((v, p1 + len))
        } else {
            proof {
                if expect is Some {
                    let t = expect->0->Text_0;
                    assert(buf@ == encode_utf8(t));
                    vstd::utf8::encode_utf8_valid_utf8(t);
                }
            }
            match utf8_to_string(buf) {
                None => {
                    proof {
                        if expect is Some {
                            assert(false);
                        }
                    }
                    None
                },
                Some(s) => {
                    proof {
                        if expect is Some {
                            let t = expect->0->Text_0;
                            vstd::utf8::encode_utf8_decode_utf8(s@);
                            vstd::utf8::encode_utf8_decode_utf8(t);
                            assert(s@ == t);
                        }
                    }
                    let v = JsonValue::Text(s);
                    Some((v, p1 + len))
                },
            }
        }
    } else if major == 4 {
        let rem = bytes.len() - p1;
        proof {
            if expect is Some {
                let v = expect->0;
                assert(v is Arr);
                assert(payload_of(v).len() >= n as int);
                assert(n as int <= rem as int);
            }
        }
        if n > rem as u64 {
            proof {
                if expect is Some {
                    assert(false);
                }
            }
            return None;
        }
        let count = n as usize;
        let mut items: Vec<JsonValue> = Vec::new();
        let mut p: usize = p1;
        let mut k: usize = 0;
        proof {
            assert(arr_view(items@) =~= Seq::<JVal>::empty());
            assert(bytes@.subrange(p1 as int, p1 as int) =~= enc_items(arr_view(items@)));
            if expect is Some {
                let vitems = expect->0->Arr_0;
                assert(vitems.take(0) =~= Seq::<JVal>::empty());
                assert(enc_items(vitems.take(0)) == Seq::<u8>::empty());
            }
        }
        while k < count
            invariant
                pos < p1 <= p <= bytes@.len(),
                k <= count,
                items@.len() == k,
                bytes@.subrange(p1 as int, p as int) == enc_items(arr_view(items@)),
                expect is Some ==> {
                    let v = expect->0;
                    let vitems = v->Arr_0;
                    &&& v is Arr
                    &&& wire_wf(v)
                    &&& vitems.len() == count
                    &&& pos + enc(v).len() <= bytes@.len()
                    &&& p1 + enc_items(vitems).len() == pos + enc(v).len()
                    &&& bytes@.subrange(p1 as int, pos + enc(v).len()) == enc_items(vitems)
                    &&& arr_view(items@) == vitems.take(k as int)
                    &&& p as int == p1 + enc_items(vitems.take(k as int)).len()
                },
            decreases count - k,
        {
            let ghost item_expect: Option<JVal> = if expect is Some {
                Some(expect->0->Arr_0[k as int])
            } else {
                None
            };
            proof {
                if expect is Some {
                    let v = expect->0;
                    let vitems = v->Arr_0;
                    let item = vitems[k as int];
                    lemma_wire_wf_items_pointwise(vitems);
                    assert(wire_wf(item));
                    // the item's bytes sit at p
                    assert(vitems =~= vitems.take(k as int) + vitems.skip(k as int));
                    lemma_enc_items_concat(vitems.take(k as int), vitems.skip(k as int));
                    assert(vitems.skip(k as int)[0] == item);
                    assert(vitems.skip(k as int).drop_first() =~= vitems.skip(k as int + 1));
                    assert(enc_items(vitems.skip(k as int)) == enc(item) + enc_items(
                        vitems.skip(k as int + 1),
                    ));
                    let a = enc_items(vitems.take(k as int));
                    let bb = enc(item);
                    let c = enc_items(vitems.skip(k as int + 1));
                    assert(enc_items(vitems) =~= a + bb + c);
                    assert(bytes@.subrange(p1 as int, pos + enc(v).len()).len() == enc_items(
                        vitems,
                    ).len());
                    assert(p1 + enc_items(vitems).len() == pos + enc(v).len());
                    assert(bytes@.subrange(p1 as int, p1 + (a + bb + c).len()) == a + bb + c);
                    lemma_concat_window(bytes@, p1 as int, a, bb, c);
                    assert(p as int == p1 + a.len());
                    assert(p + enc(item).len() <= pos + enc(v).len());
                    assert(bytes@.subrange(p as int, p + enc(item).len()) == enc(item));
                }
            }
            match decode_at(bytes, p, Ghost(item_expect)) {
                None => {
                    proof {
                        if expect is Some {
                            assert(false);
                        }
                    }
                    return None;
                },
                Some((item, p2)) => {
                    let ghost prev = arr_view(items@);
                    items.push(item);
                    proof {
                        assert(arr_view(items@) =~= prev.push(item@));
                        lemma_enc_items_snoc(prev, item@);
                        assert(bytes@.subrange(p1 as int, p2 as int) =~= bytes@.subrange(
                            p1 as int,
                            p as int,
                        ) + bytes@.subrange(p as int, p2 as int));
                        if expect is Some {
                            let vitems = expect->0->Arr_0;
                            assert(item@ == vitems[k as int]);
                            assert(vitems.take(k as int).push(item@) =~= vitems.take(k as int + 1));
                            lemma_enc_items_snoc(vitems.take(k as int), item@);
                        }
                    }
                    p = p2;
                    k += 1;
                },
            }
        }
        let ghost av = arr_view(items@);
        let v = JsonValue::Array(items);
        proof {
            assert(v@ == JVal::Arr(av));
            assert(av.len() == n);
            assert(bytes@.subrange(pos as int, p as int) =~= bytes@.subrange(pos as int, p1 as int)
                + bytes@.subrange(p1 as int, p as int));
            if expect is Some {
                let vitems = expect->0->Arr_0;
                assert(av =~= vitems.take(count as int));
                assert(vitems.take(count as int) =~= vitems);
                assert(v@ == expect->0);
                assert(p as int == p1 + enc_items(vitems).len());
                assert(p as int == pos + enc(expect->0).len());
            }
        }
        Some((v, p))
    } else if major == 5 {
        let rem = bytes.len() - p1;
        proof {
            if expect is Some {
                let v = expect->0;
                assert(v is Obj);
                assert(payload_of(v).len() >= n as int);
                assert(n as int <= rem as int);
            }
        }
        if n > rem as u64 {
            proof {
                if expect is Some {
                    assert(false);
                }
            }
            return None;
        }
        let count = n as usize;
        let mut fields: Vec<(String, JsonValue)> = Vec::new();
        let mut p: usize = p1;
        let mut k: usize = 0;
        proof {
            assert(fields_view(fields@) =~= Seq::<(Seq<char>, JVal)>::empty());
            assert(bytes@.subrange(p1 as int, p1 as int) =~= enc_fields(fields_view(fields@)));
            if expect is Some {
                let vfields = expect->0->Obj_0;
                assert(vfields.take(0) =~= Seq::<(Seq<char>, JVal)>::empty());
                assert(enc_fields(vfields.take(0)) == Seq::<u8>::empty());
            }
        }
        while k < count
            invariant
                pos < p1 <= p <= bytes@.len(),
                k <= count,
                fields@.len() == k,
                bytes@.subrange(p1 as int, p as int) == enc_fields(fields_view(fields@)),
                expect is Some ==> {
                    let v = expect->0;
                    let vfields = v->Obj_0;
                    &&& v is Obj
                    &&& wire_wf(v)
                    &&& vfields.len() == count
                    &&& pos + enc(v).len() <= bytes@.len()
                    &&& p1 + enc_fields(vfields).len() == pos + enc(v).len()
                    &&& bytes@.subrange(p1 as int, pos + enc(v).len()) == enc_fields(vfields)
                    &&& fields_view(fields@) == vfields.take(k as int)
                    &&& p as int == p1 + enc_fields(vfields.take(k as int)).len()
                },
            decreases count - k,
        {
            let ghost key_expect: Option<JVal> = if expect is Some {
                Some(JVal::Text(expect->0->Obj_0[k as int].0))
            } else {
                None
            };
            let ghost val_expect: Option<JVal> = if expect is Some {
                Some(expect->0->Obj_0[k as int].1)
            } else {
                None
            };
            proof {
                if expect is Some {
                    let v = expect->0;
                    let vfields = v->Obj_0;
                    let fld = vfields[k as int];
                    lemma_wire_wf_fields_pointwise(vfields);
                    assert(wire_wf(fld.1));
                    assert(vfields =~= vfields.take(k as int) + vfields.skip(k as int));
                    lemma_enc_fields_concat(vfields.take(k as int), vfields.skip(k as int));
                    assert(vfields.skip(k as int)[0] == fld);
                    assert(vfields.skip(k as int).drop_first() =~= vfields.skip(k as int + 1));
                    assert(enc_fields(vfields.skip(k as int)) == enc_text(fld.0) + enc(fld.1)
                        + enc_fields(vfields.skip(k as int + 1)));
                    assert(enc(JVal::Text(fld.0)) == enc_text(fld.0));
                    let a = enc_fields(vfields.take(k as int));
                    let bt = enc_text(fld.0);
                    let bv2 = enc(fld.1);
                    let c = enc_fields(vfields.skip(k as int + 1));
                    assert(enc_fields(vfields) =~= a + bt + (bv2 + c));
                    assert(enc_fields(vfields) =~= (a + bt) + bv2 + c);
                    assert(bytes@.subrange(p1 as int, pos + enc(v).len()).len() == enc_fields(
                        vfields,
                    ).len());
                    assert(p1 + enc_fields(vfields).len() == pos + enc(v).len());
                    assert(bytes@.subrange(p1 as int, p1 + (a + bt + (bv2 + c)).len()) == a + bt
                        + (bv2 + c));
                    lemma_concat_window(bytes@, p1 as int, a, bt, bv2 + c);
                    assert(p as int == p1 + a.len());
                    assert(bytes@.subrange(p as int, p + enc_text(fld.0).len()) == enc_text(
                        fld.0,
                    ));
                    assert(bytes@.subrange(p1 as int, p1 + ((a + bt) + bv2 + c).len()) == (a + bt)
                        + bv2 + c);
                    lemma_concat_window(bytes@, p1 as int, a + bt, bv2, c);
                    assert(p + enc_text(fld.0).len() + enc(fld.1).len() <= pos + enc(v).len());
                    assert(bytes@.subrange(
                        p + enc_text(fld.0).len(),
                        p + enc_text(fld.0).len() + enc(fld.1).len(),
                    ) == enc(fld.1));
                }
            }
            let kr = decode_at(bytes, p, Ghost(key_expect));
            let key = match kr {
                Some((JsonValue::Text(s), pk)) => (s, pk),
                _ => {
                    proof {
                        if expect is Some {
                            let fld = expect->0->Obj_0[k as int];
                            assert(kr is Some);
                            let kv = (kr->0).0;
                            assert(kv@ == JVal::Text(fld.0));
                            match kv {
                                JsonValue::Text(_) => {},
                                _ => {
                                    assert(!(kv@ is Text));
                                },
                            }
                            assert(false);
                        }
                    }
                    return None;
                },
            };
            let (key_s, pk) = key;
            proof {
                if expect is Some {
                    let fld = expect->0->Obj_0[k as int];
                    assert(key_s@ == fld.0);
                    assert(pk as int == p + enc_text(fld.0).len());
                }
            }
            match decode_at(bytes, pk, Ghost(val_expect)) {
                None => {
                    proof {
                        if expect is Some {
                            assert(false);
                        }
                    }
                    return None;
                },
                Some((val, p2)) => {
                    let ghost prev = fields_view(fields@);
                    let ghost ks = key_s@;
                    fields.push((key_s, val));
                    proof {
                        assert(fields_view(fields@) =~= prev.push((ks, val@)));
                        lemma_enc_fields_snoc(prev, (ks, val@));
                        assert(bytes@.subrange(p as int, p2 as int) =~= bytes@.subrange(
                            p as int,
                            pk as int,
                        ) + bytes@.subrange(pk as int, p2 as int));
                        assert(bytes@.subrange(p1 as int, p2 as int) =~= bytes@.subrange(
                            p1 as int,
                            p as int,
                        ) + bytes@.subrange(p as int, p2 as int));
                        if expect is Some {
                            let vfields = expect->0->Obj_0;
                            let fld = vfields[k as int];
                            assert(val@ == fld.1);
                            assert((ks, val@) == fld);
                            assert(vfields.take(k as int).push(fld) =~= vfields.take(k as int + 1));
                            lemma_enc_fields_snoc(vfields.take(k as int), fld);
                        }
                    }
                    p = p2;
                    k += 1;
                },
            }
        }
        let ghost fv = fields_view(fields@);
        let v = JsonValue::Object(fields);
        proof {
            assert(v@ == JVal::Obj(fv));
            assert(fv.len() == n);
            assert(bytes@.subrange(pos as int, p as int) =~= bytes@.subrange(pos as int, p1 as int)
                + bytes@.subrange(p1 as int, p as int));
            if expect is Some {
                let vfields = expect->0->Obj_0;
                assert(fv =~= vfields.take(count as int));
                assert(vfields.take(count as int) =~= vfields);
                assert(v@ == expect->0);
                assert(p as int == p1 + enc_fields(vfields).len());
                assert(p as int == pos + enc(expect->0).len());
            }
        }
        Some((v, p))
    } else {
        proof {
            if expect is Some {
                assert(false);
            }
        }
        None
    }
}

/// Decodes a whole buffer: it accepts exactly the deterministic encodings
/// that `cbor_encode` produces — sound, since a decoded value re-encodes to
/// the input, and complete, since the encoding of any wire value decodes.
pub fn cbor_decode(bytes: &Vec<u8>) -> (r: Option<JsonValue>)
    ensures
        r matches Some(v) ==> bytes@ == enc(v@),
        (exists|v: JVal| wire_wf(v) && bytes@ == enc(v)) ==> r is Some,
{
    let ghost expect: Option<JVal> = if exists|v: JVal| wire_wf(v) && bytes@ == enc(v) {
        Some(choose|v: JVal| wire_wf(v) && bytes@ == enc(v))
    } else {
        None
    };
    proof {
        if expect is Some {
            assert(bytes@.subrange(0, bytes@.len() as int) =~= bytes@);
        }
    }
    match decode_at(bytes, 0, Ghost(expect)) {
        Some((v, used)) => {
            if used == bytes.len() {
                proof {
                    assert(bytes@.subrange(0, bytes@.len() as int) =~= bytes@);
                }
                Some(v)
            } else {
                proof {
                    if expect is Some {
                        assert(false);
                    }
                }
                None
            }
        },
        None => {
            proof {
                if expect is Some {
                    assert(false);
                }
            }
            None
        },
    }
}

} // verus!

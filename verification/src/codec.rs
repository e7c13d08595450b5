//! The canonical byte form of values: a length-prefixed, tag-structured
//! encoding with stable tags, written field by field in a fixed order. The
//! same bytes are the input of the fingerprint hash, so the encoding is a
//! pure function of the encoded value. The one decoder here, for 64-bit
//! integers, is the exact inverse of the corresponding writer.

use vstd::prelude::*;

use crate::values::{ScalarValue, VegaFusionTable, TaskValue};
use vstd::utf8::encode_utf8;

verus! {

/// The eight little-endian bytes of a 64-bit integer.
pub open spec fn u64_bytes(x: u64) -> Seq<u8> {
    seq![
        (x % 256) as u8,
        ((x / 256) % 256) as u8,
        ((x / 65536) % 256) as u8,
        ((x / 16777216) % 256) as u8,
        ((x / 4294967296) % 256) as u8,
        ((x / 1099511627776) % 256) as u8,
        ((x / 281474976710656) % 256) as u8,
        ((x / 72057594037927936) % 256) as u8,
    ]
}

/// Reassembles a 64-bit integer from its little-endian bytes.
pub open spec fn u64_of_bytes(b: Seq<u8>) -> int {
    b[0] + b[1] * 256 + b[2] * 65536 + b[3] * 16777216 + b[4] * 4294967296 + b[5]
        * 1099511627776 + b[6] * 281474976710656 + b[7] * 72057594037927936
}

/// The little-endian bytes reassemble to the encoded integer.
pub proof fn lemma_u64_bytes_inverse(x: u64)
    ensures
        u64_of_bytes(u64_bytes(x)) == x,
{
    let xi = x as int;
    let q1 = xi / 256;
    let q2 = xi / 65536;
    let q3 = xi / 16777216;
    let q4 = xi / 4294967296;
    let q5 = xi / 1099511627776;
    let q6 = xi / 281474976710656;
    let q7 = xi / 72057594037927936;
    vstd::arithmetic::div_mod::lemma_div_denominator(xi, 256, 256);
    vstd::arithmetic::div_mod::lemma_div_denominator(xi, 65536, 256);
    vstd::arithmetic::div_mod::lemma_div_denominator(xi, 16777216, 256);
    vstd::arithmetic::div_mod::lemma_div_denominator(xi, 4294967296, 256);
    vstd::arithmetic::div_mod::lemma_div_denominator(xi, 1099511627776, 256);
    vstd::arithmetic::div_mod::lemma_div_denominator(xi, 281474976710656, 256);
    vstd::arithmetic::div_mod::lemma_fundamental_div_mod(xi, 256);
    vstd::arithmetic::div_mod::lemma_fundamental_div_mod(q1, 256);
    vstd::arithmetic::div_mod::lemma_fundamental_div_mod(q2, 256);
    vstd::arithmetic::div_mod::lemma_fundamental_div_mod(q3, 256);
    vstd::arithmetic::div_mod::lemma_fundamental_div_mod(q4, 256);
    vstd::arithmetic::div_mod::lemma_fundamental_div_mod(q5, 256);
    vstd::arithmetic::div_mod::lemma_fundamental_div_mod(q6, 256);
    vstd::arithmetic::div_mod::lemma_fundamental_div_mod(q7, 256);
    assert(q2 == q1 / 256);
    assert(q3 == q2 / 256);
    assert(q4 == q3 / 256);
    assert(q5 == q4 / 256);
    assert(q6 == q5 / 256);
    assert(q7 == q6 / 256);
    assert(q7 < 256);
    assert(q7 % 256 == q7);
}

/// Appends the little-endian bytes of `x`.
pub fn write_u64(buf: &mut Vec<u8>, x: u64)
    ensures
        final(buf)@ =~= old(buf)@ + u64_bytes(x),
{
    buf.push((x % 256) as u8);
    buf.push(((x / 256) % 256) as u8);
    buf.push(((x / 65536) % 256) as u8);
    buf.push(((x / 16777216) % 256) as u8);
    buf.push(((x / 4294967296) % 256) as u8);
    buf.push(((x / 1099511627776) % 256) as u8);
    buf.push(((x / 281474976710656) % 256) as u8);
    buf.push(((x / 72057594037927936) % 256) as u8);
}

/// Reads eight little-endian bytes at `pos`.
pub fn read_u64(buf: &Vec<u8>, pos: usize) -> (r: Option<u64>)
    ensures
        match r {
            Some(x) => pos + 8 <= buf@.len() && x as int == u64_of_bytes(
                buf@.subrange(pos as int, pos as int + 8),
            ),
            None => pos + 8 > buf@.len(),
        },
{
    if pos > buf.len() || buf.len() - pos < 8 {
        return None;
    }
    let x: u64 = (buf[pos] as u64) + (buf[pos + 1] as u64) * 256 + (buf[pos + 2] as u64) * 65536
        + (buf[pos + 3] as u64) * 16777216 + (buf[pos + 4] as u64) * 4294967296 + (buf[pos + 5]
        as u64) * 1099511627776 + (buf[pos + 6] as u64) * 281474976710656 + (buf[pos + 7] as u64)
        * 72057594037927936;
    proof {
        let b = buf@.subrange(pos as int, pos as int + 8);
        assert(b[0] == buf@[pos as int] && b[1] == buf@[pos as int + 1] && b[2] == buf@[pos as int
            + 2] && b[3] == buf@[pos as int + 3] && b[4] == buf@[pos as int + 4] && b[5]
            == buf@[pos as int + 5] && b[6] == buf@[pos as int + 6] && b[7] == buf@[pos as int
            + 7]);
    }
    Some(x)
}

/// When the bytes at hand are the encoding of `y`, reading gives back `y`.
pub proof fn lemma_u64_read_back(y: u64, b: Seq<u8>)
    requires
        b =~= u64_bytes(y),
    ensures
        u64_of_bytes(b) == y,
{
    lemma_u64_bytes_inverse(y);
}

/// The byte form of a string: byte length, then UTF-8 bytes.
pub open spec fn string_bytes(s: Seq<char>) -> Seq<u8> {
    u64_bytes(encode_utf8(s).len() as u64) + encode_utf8(s)
}

/// Appends the byte form of a string.
pub fn write_string(buf: &mut Vec<u8>, s: &String)
    ensures
        final(buf)@ =~= old(buf)@ + string_bytes(s@),
{
    let bs = s.as_str().as_bytes();
    write_u64(buf, bs.len() as u64);
    let ghost mid = buf@;
    let mut i: usize = 0;
    while i < bs.len()
        invariant
            i <= bs@.len(),
            buf@ =~= mid + bs@.take(i as int),
        decreases bs@.len() - i as int,
    {
        buf.push(bs[i]);
        proof {
            assert(bs@.take(i as int + 1) =~= bs@.take(i as int).push(bs@[i as int]));
        }
        i = i + 1;
    }
    proof {
        assert(bs@.take(bs@.len() as int) =~= bs@);
    }
}

/// The byte form of a scalar value: a tag, then the payload.
pub open spec fn scalar_bytes(v: ScalarValue) -> Seq<u8>
    decreases v,
    via scalar_bytes_decreases
{
    match v {
        ScalarValue::Null => seq![0u8],
        ScalarValue::Boolean(_) => seq![1u8, if v->Boolean_0 {
            1u8
        } else {
            0u8
        }],
        ScalarValue::Number(_) => seq![2u8] + u64_bytes(v->Number_0 as u64),
        ScalarValue::Utf8(_) => seq![3u8] + string_bytes(v->Utf8_0@),
        ScalarValue::List(_) => seq![4u8] + u64_bytes(v->List_0@.len() as u64) + scalars_bytes(
            v->List_0@,
        ),
    }
}

/// The byte forms of a sequence of scalars, concatenated.
pub open spec fn scalars_bytes(items: Seq<ScalarValue>) -> Seq<u8>
    decreases items,
{
    if items.len() == 0 {
        Seq::empty()
    } else {
        scalar_bytes(items[0]) + scalars_bytes(items.subrange(1, items.len() as int))
    }
}

#[via_fn]
proof fn scalar_bytes_decreases(v: ScalarValue) {
    match v {
        ScalarValue::List(_) => {
            assert(decreases_to!(v => v->List_0));
            assert(decreases_to!(v->List_0 => v->List_0@));
        },
        _ => {},
    }
}

/// Snoc form of `scalars_bytes`.
#[verifier::rlimit(80)]
pub proof fn lemma_scalars_bytes_snoc(s: Seq<ScalarValue>, x: ScalarValue)
    ensures
        scalars_bytes(s.push(x)) == scalars_bytes(s) + scalar_bytes(x),
    decreases s.len(),
{
    let sx = s.push(x);
    let xb = scalar_bytes(x);
    if s.len() == 0 {
        assert(sx.subrange(1, sx.len() as int) =~= Seq::<ScalarValue>::empty());
        assert(scalars_bytes(sx) == xb + scalars_bytes(Seq::<ScalarValue>::empty()));
        assert(xb + Seq::<u8>::empty() =~= xb);
        assert(Seq::<u8>::empty() + xb =~= xb);
    } else {
        let tail = s.subrange(1, s.len() as int);
        let h = scalar_bytes(s[0]) ;
        assert(sx[0] == s[0]);
        assert(sx.subrange(1, sx.len() as int) =~= tail.push(x));
        lemma_scalars_bytes_snoc(tail, x);
        assert(scalars_bytes(sx) == h + (scalars_bytes(tail) + xb));
        assert(h + (scalars_bytes(tail) + xb) =~= (h + scalars_bytes(tail)) + xb);
        assert(scalars_bytes(s) == h + scalars_bytes(tail));
    }
}

/// Appends the byte form of a scalar value.
#[verifier::loop_isolation(false)]
pub fn write_scalar(buf: &mut Vec<u8>, v: &ScalarValue)
    ensures
        final(buf)@ =~= old(buf)@ + scalar_bytes(*v),
    decreases *v,
{
    match v {
        ScalarValue::Null => {
            buf.push(0u8);
        },
        ScalarValue::Boolean(b) => {
            buf.push(1u8);
            buf.push(if *b {
                1u8
            } else {
                0u8
            });
        },
        ScalarValue::Number(n) => {
            buf.push(2u8);
            write_u64(buf, *n as u64);
        },
        ScalarValue::Utf8(st) => {
            buf.push(3u8);
            write_string(buf, st);
        },
        ScalarValue::List(items) => {
            buf.push(4u8);
            write_u64(buf, items.len() as u64);
            let ghost mid = buf@;
            let mut i: usize = 0;
            while i < items.len()
                invariant
                    i <= items@.len(),
                    buf@ =~= mid + scalars_bytes(items@.take(i as int)),
                decreases items@.len() - i as int,
            {
                proof {
                    assert(decreases_to!(*v => (*v)->List_0));
                    assert(decreases_to!((*v)->List_0 => (*v)->List_0@));
                    assert(decreases_to!((*v)->List_0@ => (*v)->List_0@[i as int]));
                }
                write_scalar(buf, &items[i]);
                proof {
                    assert(items@.take(i as int + 1) =~= items@.take(i as int).push(
                        items@[i as int],
                    ));
                    lemma_scalars_bytes_snoc(items@.take(i as int), items@[i as int]);
                }
                i = i + 1;
            }
            proof {
                assert(items@.take(items@.len() as int) =~= items@);
            }
        },
    }
}

/// The byte forms of a list of strings, concatenated.
pub open spec fn strings_bytes(items: Seq<String>) -> Seq<u8>
    decreases items.len(),
{
    if items.len() == 0 {
        Seq::empty()
    } else {
        string_bytes(items[0]@) + strings_bytes(items.subrange(1, items.len() as int))
    }
}

/// Snoc form of `strings_bytes`.
#[verifier::rlimit(80)]
pub proof fn lemma_strings_bytes_snoc(s: Seq<String>, x: String)
    ensures
        strings_bytes(s.push(x)) == strings_bytes(s) + string_bytes(x@),
    decreases s.len(),
{
    let sx = s.push(x);
    let xb = string_bytes(x@);
    if s.len() == 0 {
        assert(sx.subrange(1, sx.len() as int) =~= Seq::<String>::empty());
        assert(strings_bytes(sx) == xb + strings_bytes(Seq::<String>::empty()));
        assert(xb + Seq::<u8>::empty() =~= xb);
        assert(Seq::<u8>::empty() + xb =~= xb);
    } else {
        let tail = s.subrange(1, s.len() as int);
        let h = string_bytes(s[0]@) ;
        assert(sx[0] == s[0]);
        assert(sx.subrange(1, sx.len() as int) =~= tail.push(x));
        lemma_strings_bytes_snoc(tail, x);
        assert(strings_bytes(sx) == h + (strings_bytes(tail) + xb));
        assert(h + (strings_bytes(tail) + xb) =~= (h + strings_bytes(tail)) + xb);
        assert(strings_bytes(s) == h + strings_bytes(tail));
    }
}

/// Appends the byte forms of a list of strings.
pub fn write_strings(buf: &mut Vec<u8>, items: &Vec<String>)
    ensures
        final(buf)@ =~= old(buf)@ + u64_bytes(items@.len() as u64) + strings_bytes(items@),
{
    write_u64(buf, items.len() as u64);
    let ghost mid = buf@;
    let mut i: usize = 0;
    while i < items.len()
        invariant
            i <= items@.len(),
            buf@ =~= mid + strings_bytes(items@.take(i as int)),
        decreases items@.len() - i as int,
    {
        write_string(buf, &items[i]);
        proof {
            assert(items@.take(i as int + 1) =~= items@.take(i as int).push(items@[i as int]));
            lemma_strings_bytes_snoc(items@.take(i as int), items@[i as int]);
        }
        i = i + 1;
    }
    proof {
        assert(items@.take(items@.len() as int) =~= items@);
    }
}

/// The byte form of one table row: cell count, then each cell.
pub open spec fn row_bytes(row: Seq<ScalarValue>) -> Seq<u8> {
    u64_bytes(row.len() as u64) + scalars_bytes(row)
}

/// The byte forms of the rows of a table, concatenated.
pub open spec fn rows_bytes(rows: Seq<Vec<ScalarValue>>) -> Seq<u8>
    decreases rows.len(),
{
    if rows.len() == 0 {
        Seq::empty()
    } else {
        row_bytes(rows[0]@) + rows_bytes(rows.subrange(1, rows.len() as int))
    }
}

/// Snoc form of `rows_bytes`.
#[verifier::rlimit(80)]
pub proof fn lemma_rows_bytes_snoc(s: Seq<Vec<ScalarValue>>, x: Vec<ScalarValue>)
    ensures
        rows_bytes(s.push(x)) == rows_bytes(s) + row_bytes(x@),
    decreases s.len(),
{
    let sx = s.push(x);
    let xb = row_bytes(x@);
    if s.len() == 0 {
        assert(sx.subrange(1, sx.len() as int) =~= Seq::<Vec<ScalarValue>>::empty());
        assert(rows_bytes(sx) == xb + rows_bytes(Seq::<Vec<ScalarValue>>::empty()));
        assert(xb + Seq::<u8>::empty() =~= xb);
        assert(Seq::<u8>::empty() + xb =~= xb);
    } else {
        let tail = s.subrange(1, s.len() as int);
        let h = row_bytes(s[0]@) ;
        assert(sx[0] == s[0]);
        assert(sx.subrange(1, sx.len() as int) =~= tail.push(x));
        lemma_rows_bytes_snoc(tail, x);
        assert(rows_bytes(sx) == h + (rows_bytes(tail) + xb));
        assert(h + (rows_bytes(tail) + xb) =~= (h + rows_bytes(tail)) + xb);
        assert(rows_bytes(s) == h + rows_bytes(tail));
    }
}

/// The byte form of a table: columns, then rows.
pub open spec fn table_bytes(t: VegaFusionTable) -> Seq<u8> {
    u64_bytes(t.columns@.len() as u64) + strings_bytes(t.columns@) + u64_bytes(
        t.rows@.len() as u64,
    ) + rows_bytes(t.rows@)
}

/// Appends the byte form of a table.
pub fn write_table(buf: &mut Vec<u8>, t: &VegaFusionTable)
    ensures
        final(buf)@ =~= old(buf)@ + table_bytes(*t),
{
    write_strings(buf, &t.columns);
    write_u64(buf, t.rows.len() as u64);
    let ghost mid = buf@;
    let mut i: usize = 0;
    while i < t.rows.len()
        invariant
            i <= t.rows@.len(),
            buf@ =~= mid + rows_bytes(t.rows@.take(i as int)),
        decreases t.rows@.len() - i as int,
    {
        let row = &t.rows[i];
        write_u64(buf, row.len() as u64);
        let ghost mid2 = buf@;
        let mut j: usize = 0;
        while j < row.len()
            invariant
                j <= row@.len(),
                buf@ =~= mid2 + scalars_bytes(row@.take(j as int)),
            decreases row@.len() - j as int,
        {
            write_scalar(buf, &row[j]);
            proof {
                assert(row@.take(j as int + 1) =~= row@.take(j as int).push(row@[j as int]));
                lemma_scalars_bytes_snoc(row@.take(j as int), row@[j as int]);
            }
            j = j + 1;
        }
        proof {
            assert(row@.take(row@.len() as int) =~= row@);
            assert(t.rows@.take(i as int + 1) =~= t.rows@.take(i as int).push(
                t.rows@[i as int],
            ));
            lemma_rows_bytes_snoc(t.rows@.take(i as int), t.rows@[i as int]);
        }
        i = i + 1;
    }
    proof {
        assert(t.rows@.take(t.rows@.len() as int) =~= t.rows@);
    }
}

/// The byte form of a task value: a tag, then the payload. The tag space is
/// part of the wire contract and never reused.
pub open spec fn task_value_bytes(v: TaskValue) -> Seq<u8> {
    match v {
        TaskValue::Scalar(_) => seq![0u8] + scalar_bytes(v->Scalar_0),
        TaskValue::Table(_) => seq![1u8] + table_bytes(v->Table_0),
    }
}

/// Appends the byte form of a task value.
pub fn write_task_value(buf: &mut Vec<u8>, v: &TaskValue)
    ensures
        final(buf)@ =~= old(buf)@ + task_value_bytes(*v),
{
    match v {
        TaskValue::Scalar(sv) => {
            buf.push(0u8);
            write_scalar(buf, sv);
        },
        TaskValue::Table(t) => {
            buf.push(1u8);
            write_table(buf, t);
        },
    }
}

/// The byte form of a task value, as one fresh buffer.
pub fn encode_task_value(v: &TaskValue) -> (r: Vec<u8>)
    ensures
        r@ == task_value_bytes(*v),
{
    let mut buf: Vec<u8> = Vec::new();
    write_task_value(&mut buf, v);
    proof {
        assert(buf@ =~= task_value_bytes(*v));
    }
    buf
}

/// The 64-bit digest of a byte sequence, as the deterministic hasher
/// computes it: a pure function of the bytes.
pub uninterp spec fn hash64_of(bytes: Seq<u8>) -> u64;

/// Relies on deterministic_hash::DeterministicHasher wrapped around std's
/// DefaultHasher: the digest is computed from the written bytes alone, with
/// platform-independent primitive writes, so equal bytes give equal digests.
#[verifier::external_body]
pub fn hash64(bytes: &Vec<u8>) -> (r: u64)
    ensures
        r == hash64_of(bytes@),
{
    let mut hasher = deterministic_hash::DeterministicHasher::new(
        std::collections::hash_map::DefaultHasher::new(),
    );
    std::hash::Hasher::write(&mut hasher, bytes.as_slice());
    std::hash::Hasher::finish(&hasher)
}

/// Name lists with elementwise-equal views have equal bytes.
pub proof fn lemma_strings_views_bytes(a: Seq<String>, b: Seq<String>)
    requires
        a.len() == b.len(),
        forall|i: int| 0 <= i < a.len() ==> (#[trigger] a[i])@ == b[i]@,
    ensures
        strings_bytes(a) == strings_bytes(b),
    decreases a.len(),
{
    if a.len() > 0 {
        let ta = a.subrange(1, a.len() as int);
        let tb = b.subrange(1, b.len() as int);
        assert(forall|i: int| 0 <= i < ta.len() ==> (#[trigger] ta[i])@ == tb[i]@);
        lemma_strings_views_bytes(ta, tb);
    }
}

/// Rows with elementwise model-equal cells have equal bytes.
pub proof fn lemma_rows_model_bytes(a: Seq<Vec<ScalarValue>>, b: Seq<Vec<ScalarValue>>)
    requires
        a.len() == b.len(),
        forall|i: int| 0 <= i < a.len() ==> (#[trigger] a[i])@.len() == b[i]@.len(),
        forall|i: int, j: int|
            0 <= i < a.len() && 0 <= j < a[i]@.len() ==> crate::values::scalar_model(
                #[trigger] a[i]@[j],
            ) == crate::values::scalar_model(b[i]@[j]),
    ensures
        rows_bytes(a) == rows_bytes(b),
    decreases a.len(),
{
    if a.len() > 0 {
        assert forall|j: int| 0 <= j < a[0]@.len() implies crate::values::scalar_model(
            #[trigger] a[0]@[j],
        ) == crate::values::scalar_model(b[0]@[j]) by {}
        lemma_scalars_views_bytes(a[0]@, b[0]@);
        let ta = a.subrange(1, a.len() as int);
        let tb = b.subrange(1, b.len() as int);
        assert(forall|i: int| 0 <= i < ta.len() ==> (#[trigger] ta[i])@.len() == tb[i]@.len());
        assert forall|i: int, j: int|
            0 <= i < ta.len() && 0 <= j < ta[i]@.len() implies crate::values::scalar_model(
            #[trigger] ta[i]@[j],
        ) == crate::values::scalar_model(tb[i]@[j]) by {
            assert(ta[i] == a[i + 1]);
            assert(tb[i] == b[i + 1]);
        }
        lemma_rows_model_bytes(ta, tb);
    }
}

/// Scalar lists with elementwise-equal models have equal bytes.
pub proof fn lemma_scalars_views_bytes(a: Seq<ScalarValue>, b: Seq<ScalarValue>)
    requires
        a.len() == b.len(),
        forall|i: int|
            0 <= i < a.len() ==> crate::values::scalar_model(#[trigger] a[i])
                == crate::values::scalar_model(b[i]),
    ensures
        scalars_bytes(a) == scalars_bytes(b),
    decreases a.len(),
{
    if a.len() > 0 {
        crate::expression::lemma_scalar_model_bytes(a[0], b[0]);
        let ta = a.subrange(1, a.len() as int);
        let tb = b.subrange(1, b.len() as int);
        assert(forall|i: int|
            0 <= i < ta.len() ==> crate::values::scalar_model(#[trigger] ta[i])
                == crate::values::scalar_model(tb[i]));
        lemma_scalars_views_bytes(ta, tb);
    }
}

/// Tables with the same model have the same bytes.
pub proof fn lemma_table_model_bytes(a: VegaFusionTable, b: VegaFusionTable)
    requires
        crate::values::table_model(a) == crate::values::table_model(b),
    ensures
        table_bytes(a) == table_bytes(b),
{
    let ma = crate::values::table_model(a);
    let mb = crate::values::table_model(b);
    assert(ma.columns.len() == a.columns@.len());
    assert(mb.columns.len() == b.columns@.len());
    assert forall|i: int| 0 <= i < a.columns@.len() implies (#[trigger] a.columns@[i])@
        == b.columns@[i]@ by {
        assert(ma.columns[i] == a.columns@[i]@);
        assert(mb.columns[i] == b.columns@[i]@);
    }
    lemma_strings_views_bytes(a.columns@, b.columns@);
    assert(ma.rows.len() == a.rows@.len());
    assert forall|i: int| 0 <= i < a.rows@.len() implies (#[trigger] a.rows@[i])@.len()
        == b.rows@[i]@.len() by {
        assert(ma.rows[i].len() == a.rows@[i]@.len());
        assert(mb.rows[i].len() == b.rows@[i]@.len());
    }
    assert forall|i: int, j: int|
        0 <= i < a.rows@.len() && 0 <= j < a.rows@[i]@.len() implies crate::values::scalar_model(
        #[trigger] a.rows@[i]@[j],
    ) == crate::values::scalar_model(b.rows@[i]@[j]) by {
        assert(ma.rows[i][j] == crate::values::scalar_model(a.rows@[i]@[j]));
        assert(mb.rows[i][j] == crate::values::scalar_model(b.rows@[i]@[j]));
    }
    lemma_rows_model_bytes(a.rows@, b.rows@);
}

/// Task values with the same model have the same bytes.
pub proof fn lemma_task_value_model_bytes(a: TaskValue, b: TaskValue)
    requires
        crate::values::task_value_model(a) == crate::values::task_value_model(b),
    ensures
        task_value_bytes(a) == task_value_bytes(b),
{
    match a {
        TaskValue::Scalar(_) => {
            assert(b matches TaskValue::Scalar(_));
            crate::expression::lemma_scalar_model_bytes(a->Scalar_0, b->Scalar_0);
        },
        TaskValue::Table(_) => {
            assert(b matches TaskValue::Table(_));
            lemma_table_model_bytes(a->Table_0, b->Table_0);
        },
    }
}

} // verus!

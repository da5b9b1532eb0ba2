//! The persisted cache: one byte format for the database, written between
//! runs and read back on start.
//!
//! The format holds a magic header, the revision counter, and each query
//! table tagged by its numeric id: table 0 is the input table with its
//! entries, tables 1 through 9 are the derived tables, persisted empty —
//! every `get` is proved equal to evaluating the query from the inputs, so
//! derived values are re-derived on demand after a load.  Corrupt bytes
//! never propagate an error: decoding refuses them and an empty database
//! takes their place.

use vstd::prelude::*;

use crate::errors::{bytes_clone, Errors};
use crate::incremental::{inputs_view, Database};

verus! {

/// The file header.
pub open spec fn sp_magic() -> Seq<u8> {
    seq![101u8, 120u8, 99u8, 49u8]
}

/// Eight zero bytes: an empty table's entry count.
pub open spec fn sp_zero8() -> Seq<u8> {
    seq![0u8, 0u8, 0u8, 0u8, 0u8, 0u8, 0u8, 0u8]
}

/// The nine derived tables, tagged 1 through 9, each persisted empty.
pub open spec fn sp_tail() -> Seq<u8> {
    seq![1u8] + sp_zero8() + seq![2u8] + sp_zero8() + seq![3u8] + sp_zero8() + seq![4u8]
        + sp_zero8() + seq![5u8] + sp_zero8() + seq![6u8] + sp_zero8() + seq![7u8] + sp_zero8()
        + seq![8u8] + sp_zero8() + seq![9u8] + sp_zero8()
}

/// A number as eight little-endian bytes.
pub open spec fn enc_le(n: int, k: nat) -> Seq<u8>
    decreases k,
{
    if k == 0 {
        Seq::empty()
    } else {
        seq![(n % 256) as u8] + enc_le(n / 256, (k - 1) as nat)
    }
}

/// The number eight little-endian bytes hold.
pub open spec fn dec_le(s: Seq<u8>, off: int, k: nat) -> int
    decreases k,
{
    if k == 0 {
        0
    } else {
        s[off] + 256 * dec_le(s, off + 1, (k - 1) as nat)
    }
}

pub open spec fn pow256(k: nat) -> int
    decreases k,
{
    if k == 0 {
        1
    } else {
        256 * pow256((k - 1) as nat)
    }
}

/// The byte budget: eight bytes hold any length or revision this crate
/// can build.
pub proof fn lemma_pow256_8()
    ensures
        pow256(8) == 0x1_0000_0000_0000_0000,
{
    assert(pow256(8) == 256 * pow256(7));
    assert(pow256(7) == 256 * pow256(6));
    assert(pow256(6) == 256 * pow256(5));
    assert(pow256(5) == 256 * pow256(4));
    assert(pow256(4) == 256 * pow256(3));
    assert(pow256(3) == 256 * pow256(2));
    assert(pow256(2) == 256 * pow256(1));
    assert(pow256(1) == 256 * pow256(0));
}

pub proof fn lemma_enc_le_len(n: int, k: nat)
    ensures
        enc_le(n, k).len() == k,
    decreases k,
{
    if k > 0 {
        lemma_enc_le_len(n / 256, (k - 1) as nat);
    }
}

/// Little-endian encoding decodes to the number it came from.
pub proof fn lemma_le_round(s: Seq<u8>, off: int, n: int, k: nat)
    requires
        0 <= n < pow256(k),
        0 <= off,
        off + k <= s.len(),
        s.subrange(off, off + k as int) == enc_le(n, k),
    ensures
        dec_le(s, off, k) == n,
    decreases k,
{
    lemma_enc_le_len(n, k);
    if k > 0 {
        assert(s[off] == enc_le(n, k)[0]);
        assert(s[off] == (n % 256) as u8);
        assert(s.subrange(off + 1, off + k as int) =~= enc_le(n / 256, (k - 1) as nat)) by {
            lemma_enc_le_len(n / 256, (k - 1) as nat);
            assert forall|m: int| 0 <= m < k - 1 implies #[trigger] s.subrange(
                off + 1,
                off + k as int,
            )[m] == enc_le(n / 256, (k - 1) as nat)[m] by {
                assert(s.subrange(off, off + k as int)[m + 1] == enc_le(n, k)[m + 1]);
            }
        }
        assert(n / 256 < pow256((k - 1) as nat)) by {
            assert(pow256(k) == 256 * pow256((k - 1) as nat));
        }
        lemma_le_round(s, off + 1, n / 256, (k - 1) as nat);
        assert(dec_le(s, off, k) == s[off] + 256 * (n / 256));
        assert(s[off] == n % 256);
    }
}

/// The bytes of one input entry: name length, name, text length, text.
pub open spec fn enc_entry(name: Seq<u8>, text: Seq<u8>) -> Seq<u8> {
    enc_le(name.len() as int, 8) + name + enc_le(text.len() as int, 8) + text
}

/// The bytes of the input table's entries, in order.
pub open spec fn enc_entries(inputs: Seq<(Seq<u8>, Seq<u8>)>, i: int) -> Seq<u8>
    decreases inputs.len() - i,
{
    if i < 0 || i >= inputs.len() {
        Seq::empty()
    } else {
        enc_entry(inputs[i].0, inputs[i].1) + enc_entries(inputs, i + 1)
    }
}

/// Decode `count` input entries starting at `off`.
pub open spec fn sp_decode_inputs(
    s: Seq<u8>,
    off: int,
    count: int,
    acc: Seq<(Seq<u8>, Seq<u8>)>,
) -> Option<(Seq<(Seq<u8>, Seq<u8>)>, int)>
    decreases count,
{
    if count <= 0 {
        Some((acc, off))
    } else if off < 0 || off + 8 > s.len() {
        None
    } else {
        let nl = dec_le(s, off, 8);
        if off + 8 + nl + 8 > s.len() {
            None
        } else {
            let name = s.subrange(off + 8, off + 8 + nl);
            let tl = dec_le(s, off + 8 + nl, 8);
            if off + 16 + nl + tl > s.len() {
                None
            } else {
                let text = s.subrange(off + 16 + nl, off + 16 + nl + tl);
                sp_decode_inputs(s, off + 16 + nl + tl, count - 1, acc + seq![(name, text)])
            }
        }
    }
}

/// What a persisted database's bytes mean: its input table and revision, or
/// nothing when the bytes are corrupt.
pub open spec fn sp_decode(s: Seq<u8>) -> Option<(Seq<(Seq<u8>, Seq<u8>)>, u64)> {
    if s.len() < 21 {
        None
    } else if s.subrange(0, 4) != sp_magic() {
        None
    } else if s[12] != 0u8 {
        None
    } else {
        let revision = dec_le(s, 4, 8);
        let count = dec_le(s, 13, 8);
        match sp_decode_inputs(s, 21, count, Seq::empty()) {
            None => None,
            Some((inputs, off)) => {
                if s.subrange(off, s.len() as int) == sp_tail() {
                    Some((inputs, revision as u64))
                } else {
                    None
                }
            },
        }
    }
}

/// Append a number as eight little-endian bytes.
fn push_u64(out: &mut Vec<u8>, n: u64)
    ensures
        final(out)@ == old(out)@ + enc_le(n as int, 8),
{
    let ghost n0 = n as int;
    proof {
        assert(n0 >= 0);
    }
    let mut m: u64 = n;
    let mut k: usize = 0;
    while k < 8
        invariant
            0 <= k <= 8,
            n0 == n as int,
            n0 >= 0,
            out@ =~= old(out)@ + enc_le(n0, k as nat),
            m == dec_m(n0, k as nat),
        decreases 8 - k,
    {
        proof {
            lemma_enc_le_len(n0, k as nat);
            lemma_enc_le_step(n0, k as nat);
        }
        out.push((m % 256) as u8);
        m = m / 256;
        k = k + 1;
    }
    proof {
        assert(out@ =~= old(out)@ + enc_le(n0, 8));
    }
}

/// The number left after shifting `k` bytes off.
pub open spec fn dec_m(n: int, k: nat) -> int
    decreases k,
{
    if k == 0 {
        n
    } else {
        dec_m(n, (k - 1) as nat) / 256
    }
}

/// One more byte of the little-endian encoding.
pub proof fn lemma_enc_le_step(n: int, k: nat)
    requires
        n >= 0,
    ensures
        enc_le(n, (k + 1) as nat) =~= enc_le(n, k) + seq![(dec_m(n, k) % 256) as u8],
        dec_m(n, (k + 1) as nat) == dec_m(n, k) / 256,
    decreases k,
{
    if k == 0 {
        assert(enc_le(n, 1) =~= seq![(n % 256) as u8] + enc_le(n / 256, 0));
    } else {
        lemma_enc_le_step(n / 256, (k - 1) as nat);
        lemma_dec_m_div(n, (k - 1) as nat);
        assert(enc_le(n, (k + 1) as nat) =~= seq![(n % 256) as u8] + enc_le(n / 256, k));
        assert(enc_le(n, k) =~= seq![(n % 256) as u8] + enc_le(n / 256, (k - 1) as nat));
    }
}

/// Shifting distributes over the head byte.
pub proof fn lemma_dec_m_div(n: int, k: nat)
    ensures
        dec_m(n / 256, k) == dec_m(n, (k + 1) as nat),
    decreases k,
{
    if k == 0 {
        assert(dec_m(n / 256, 0) == n / 256);
        assert(dec_m(n, 1nat) == dec_m(n, 0nat) / 256);
    } else {
        lemma_dec_m_div(n, (k - 1) as nat);
        assert(dec_m(n / 256, k) == dec_m(n / 256, (k - 1) as nat) / 256);
        assert(dec_m(n, (k + 1) as nat) == dec_m(n, k) / 256);
    }
}

/// Serialize the database: its inputs and revision, each derived table
/// tagged and empty.
pub fn serialize_db(db: &Database) -> (r: Vec<u8>)
    ensures
        sp_decode(r@) == Some((db@.inputs, db@.revision)),
{
    let mut out: Vec<u8> = Vec::new();
    out.push(101u8);
    out.push(120u8);
    out.push(99u8);
    out.push(49u8);
    push_u64(&mut out, db.revision_val());
    out.push(0u8);
    let inputs = db.inputs_ref();
    let n = inputs.len();
    let ghost iv = inputs_view(inputs@);
    // a vector's lengths always fit the eight-byte fields
    let mut c: usize = 0;
    while c < n
        invariant
            n == inputs@.len(),
            0 <= c <= n,
            iv == inputs_view(inputs@),
            forall|j: int|
                0 <= j < c ==> (#[trigger] iv[j]).0.len() < pow256(8) && iv[j].1.len() < pow256(
                    8,
                ),
        decreases n - c,
    {
        let name_len = inputs[c].0.len();
        let text_len = inputs[c].1.len();
        proof {
            lemma_pow256_8();
            assert(iv[c as int] == (inputs@[c as int].0@, inputs@[c as int].1@));
            assert(iv[c as int].0.len() == name_len);
            assert(iv[c as int].1.len() == text_len);
        }
        c = c + 1;
    }
    proof {
        lemma_pow256_8();
    }
    push_u64(&mut out, n as u64);
    proof {
        lemma_enc_le_len(db@.revision as int, 8);
        lemma_enc_le_len(n as int, 8);
        assert(out@.len() == 21);
    }
    let ghost header = out@;
    let mut i: usize = 0;
    while i < n
        invariant
            n == inputs@.len(),
            0 <= i <= n,
            out@ =~= header + enc_entries(inputs_view(inputs@), 0).subrange(
                0,
                out@.len() - 21,
            ),
            enc_entries(inputs_view(inputs@), 0) =~= out@.subrange(21, out@.len() as int)
                + enc_entries(inputs_view(inputs@), i as int),
            out@.len() >= 21,
        decreases n - i,
    {
        let ghost pre = out@;
        push_u64(&mut out, inputs[i].0.len() as u64);
        let name = bytes_clone(&inputs[i].0);
        crate::errors::append_vec(&mut out, &name);
        push_u64(&mut out, inputs[i].1.len() as u64);
        let text = bytes_clone(&inputs[i].1);
        crate::errors::append_vec(&mut out, &text);
        proof {
            assert(inputs_view(inputs@)[i as int] == (inputs@[i as int].0@, inputs@[i as int].1@));
            assert(out@ =~= pre + enc_entry(
                inputs_view(inputs@)[i as int].0,
                inputs_view(inputs@)[i as int].1,
            ));
            assert(enc_entries(inputs_view(inputs@), i as int) =~= enc_entry(
                inputs_view(inputs@)[i as int].0,
                inputs_view(inputs@)[i as int].1,
            ) + enc_entries(inputs_view(inputs@), i + 1));
            assert(enc_entries(inputs_view(inputs@), 0) =~= out@.subrange(21, out@.len() as int)
                + enc_entries(inputs_view(inputs@), i + 1));
            assert(out@ =~= header + enc_entries(inputs_view(inputs@), 0).subrange(
                0,
                out@.len() - 21,
            ));
        }
        i = i + 1;
    }
    proof {
        assert(enc_entries(inputs_view(inputs@), n as int) =~= Seq::<u8>::empty());
        assert(out@ =~= header + enc_entries(inputs_view(inputs@), 0));
    }
    let ghost with_entries = out@;
    let mut t: u8 = 1;
    while t <= 9
        invariant
            1 <= t <= 10,
            out@ =~= with_entries + sp_tail().subrange(0, (t - 1) * 9),
        decreases 10 - t,
    {
        let ghost pre = out@;
        out.push(t);
        push_u64(&mut out, 0u64);
        proof {
            assert(enc_le(0int, 8) =~= sp_zero8()) by {
                assert(enc_le(0int, 8) =~= seq![0u8] + enc_le(0int, 7));
                assert(enc_le(0int, 7) =~= seq![0u8] + enc_le(0int, 6));
                assert(enc_le(0int, 6) =~= seq![0u8] + enc_le(0int, 5));
                assert(enc_le(0int, 5) =~= seq![0u8] + enc_le(0int, 4));
                assert(enc_le(0int, 4) =~= seq![0u8] + enc_le(0int, 3));
                assert(enc_le(0int, 3) =~= seq![0u8] + enc_le(0int, 2));
                assert(enc_le(0int, 2) =~= seq![0u8] + enc_le(0int, 1));
                assert(enc_le(0int, 1) =~= seq![0u8] + enc_le(0int, 0));
            }
            assert(out@ =~= pre + seq![t] + sp_zero8());
            assert(out@ =~= with_entries + sp_tail().subrange(0, (t as int) * 9));
        }
        t = t + 1;
    }
    proof {
        assert(sp_tail().subrange(0, 81) =~= sp_tail());
        assert(out@ =~= with_entries + sp_tail());
        lemma_serialized_decodes(
            out@,
            inputs_view(inputs@),
            db@.revision,
            header,
            with_entries,
        );
    }
    out
}

/// A buffer of the serialized shape decodes to what was written.
pub proof fn lemma_serialized_decodes(
    s: Seq<u8>,
    inputs: Seq<(Seq<u8>, Seq<u8>)>,
    revision: u64,
    header: Seq<u8>,
    with_entries: Seq<u8>,
)
    requires
        header =~= sp_magic() + enc_le(revision as int, 8) + seq![0u8] + enc_le(
            inputs.len() as int,
            8,
        ),
        with_entries =~= header + enc_entries(inputs, 0),
        s =~= with_entries + sp_tail(),
        inputs.len() < pow256(8),
        forall|j: int|
            0 <= j < inputs.len() ==> (#[trigger] inputs[j]).0.len() < pow256(8)
                && inputs[j].1.len() < pow256(8),
    ensures
        sp_decode(s) == Some((inputs, revision)),
{
    lemma_enc_le_len(revision as int, 8);
    lemma_enc_le_len(inputs.len() as int, 8);
    assert(header.len() == 21);
    assert(s.len() >= 21 + 81);
    assert(s.subrange(0, 4) =~= sp_magic());
    assert(s[12] == 0u8);
    assert(s.subrange(4, 12) =~= enc_le(revision as int, 8));
    assert(revision < pow256(8)) by {
        lemma_pow256_8();
    }
    lemma_le_round(s, 4, revision as int, 8);
    assert(s.subrange(13, 21) =~= enc_le(inputs.len() as int, 8));
    assert(inputs.len() < pow256(8));
    lemma_le_round(s, 13, inputs.len() as int, 8);
    lemma_entries_decode(s, 21, inputs, 0, Seq::empty());
    assert(21 + enc_entries(inputs, 0).len() + sp_tail().len() == s.len());
    assert(s.subrange(21 + enc_entries(inputs, 0).len() as int, s.len() as int) =~= sp_tail());
    assert((revision as int) as u64 == revision);
}

/// The entry bytes decode back to the entries.
pub proof fn lemma_entries_decode(
    s: Seq<u8>,
    off: int,
    inputs: Seq<(Seq<u8>, Seq<u8>)>,
    i: int,
    acc: Seq<(Seq<u8>, Seq<u8>)>,
)
    requires
        0 <= i <= inputs.len(),
        0 <= off,
        off + enc_entries(inputs, i).len() <= s.len(),
        s.subrange(off, off + enc_entries(inputs, i).len() as int) =~= enc_entries(inputs, i),
        acc =~= inputs.subrange(0, i),
        forall|j: int|
            0 <= j < inputs.len() ==> (#[trigger] inputs[j]).0.len() < pow256(8)
                && inputs[j].1.len() < pow256(8),
    ensures
        sp_decode_inputs(s, off, inputs.len() - i, acc) == Some(
            (inputs, off + enc_entries(inputs, i).len()),
        ),
    decreases inputs.len() - i,
{
    if i == inputs.len() {
        assert(enc_entries(inputs, i) =~= Seq::<u8>::empty());
        assert(acc =~= inputs);
    } else {
        let name = inputs[i].0;
        let text = inputs[i].1;
        let e = enc_entry(name, text);
        lemma_enc_le_len(name.len() as int, 8);
        lemma_enc_le_len(text.len() as int, 8);
        assert(e.len() == 16 + name.len() + text.len());
        assert(enc_entries(inputs, i) =~= e + enc_entries(inputs, i + 1));
        assert(s.subrange(off, off + 8) =~= enc_le(name.len() as int, 8)) by {
            assert forall|m: int| 0 <= m < 8 implies #[trigger] s.subrange(off, off + 8)[m]
                == enc_le(name.len() as int, 8)[m] by {
                assert(s.subrange(off, off + enc_entries(inputs, i).len() as int)[m] == enc_entries(
                    inputs,
                    i,
                )[m]);
            }
        }
        assert(name.len() < pow256(8));
        lemma_le_round(s, off, name.len() as int, 8);
        assert(s.subrange(off + 8, off + 8 + name.len() as int) =~= name) by {
            assert forall|m: int| 0 <= m < name.len() implies #[trigger] s.subrange(
                off + 8,
                off + 8 + name.len() as int,
            )[m] == name[m] by {
                assert(s.subrange(off, off + enc_entries(inputs, i).len() as int)[8 + m]
                    == enc_entries(inputs, i)[8 + m]);
                assert(enc_entries(inputs, i)[8 + m] == e[8 + m]);
                assert(e[8 + m] == name[m]);
            }
        }
        let toff = off + 8 + name.len() as int;
        assert(s.subrange(toff, toff + 8) =~= enc_le(text.len() as int, 8)) by {
            assert forall|m: int| 0 <= m < 8 implies #[trigger] s.subrange(toff, toff + 8)[m]
                == enc_le(text.len() as int, 8)[m] by {
                assert(s.subrange(off, off + enc_entries(inputs, i).len() as int)[8
                    + name.len() + m] == enc_entries(inputs, i)[8 + name.len() + m]);
                assert(e[8 + name.len() + m] == enc_le(text.len() as int, 8)[m]);
            }
        }
        assert(text.len() < pow256(8));
        lemma_le_round(s, toff, text.len() as int, 8);
        assert(s.subrange(toff + 8, toff + 8 + text.len() as int) =~= text) by {
            assert forall|m: int| 0 <= m < text.len() implies #[trigger] s.subrange(
                toff + 8,
                toff + 8 + text.len() as int,
            )[m] == text[m] by {
                assert(s.subrange(off, off + enc_entries(inputs, i).len() as int)[16
                    + name.len() + m] == enc_entries(inputs, i)[16 + name.len() + m]);
                assert(e[16 + name.len() + m] == text[m]);
            }
        }
        let off2 = off + e.len() as int;
        assert(s.subrange(off2, off2 + enc_entries(inputs, i + 1).len() as int) =~= enc_entries(
            inputs,
            i + 1,
        )) by {
            assert forall|m: int| 0 <= m < enc_entries(inputs, i + 1).len() implies #[trigger] s.subrange(
                off2,
                off2 + enc_entries(inputs, i + 1).len() as int,
            )[m] == enc_entries(inputs, i + 1)[m] by {
                assert(s.subrange(off, off + enc_entries(inputs, i).len() as int)[e.len() + m]
                    == enc_entries(inputs, i)[e.len() + m]);
            }
        }
        assert(acc + seq![(name, text)] =~= inputs.subrange(0, i + 1));
        lemma_entries_decode(s, off2, inputs, i + 1, acc + seq![(name, text)]);
    }
}

} // verus!

verus! {

pub proof fn lemma_dec_le_bound(s: Seq<u8>, off: int, k: nat)
    requires
        0 <= off,
        off + k <= s.len(),
    ensures
        0 <= dec_le(s, off, k) < pow256(k),
    decreases k,
{
    if k > 0 {
        lemma_dec_le_bound(s, off + 1, (k - 1) as nat);
        assert(pow256(k) == 256 * pow256((k - 1) as nat));
    }
}

/// Read eight little-endian bytes.
fn read_u64(bytes: &Vec<u8>, off: usize) -> (r: u64)
    requires
        off + 8 <= bytes@.len(),
    ensures
        r as int == dec_le(bytes@, off as int, 8),
{
    proof {
        lemma_pow256_8();
    }
    let total = bytes.len();
    let mut acc: u64 = 0;
    let mut k: usize = 0;
    while k < 8
        invariant
            total == bytes@.len(),
            off + 8 <= bytes@.len(),
            0 <= k <= 8,
            acc as int == dec_le(bytes@, off + 8 - k, k as nat),
            acc < pow256(k as nat),
        decreases 8 - k,
    {
        proof {
            lemma_pow256_8();
            lemma_dec_le_bound(bytes@, off + 8 - k, k as nat);
            assert(pow256((k + 1) as nat) == 256 * pow256(k as nat));
            assert(pow256((k + 1) as nat) <= pow256(8)) by {
                assert(pow256(8) == 256 * pow256(7));
                assert(pow256(7) == 256 * pow256(6));
                assert(pow256(6) == 256 * pow256(5));
                assert(pow256(5) == 256 * pow256(4));
                assert(pow256(4) == 256 * pow256(3));
                assert(pow256(3) == 256 * pow256(2));
                assert(pow256(2) == 256 * pow256(1));
                assert(pow256(1) == 256 * pow256(0));
            }
        }
        let b = bytes[off + 8 - k - 1];
        acc = acc * 256 + (b as u64);
        k = k + 1;
        proof {
            assert(acc as int == dec_le(bytes@, off + 8 - k, k as nat));
        }
    }
    acc
}

/// Copy a byte range.
fn copy_range(bytes: &Vec<u8>, a: usize, b: usize) -> (r: Vec<u8>)
    requires
        a <= b <= bytes@.len(),
    ensures
        r@ == bytes@.subrange(a as int, b as int),
{
    let mut r: Vec<u8> = Vec::new();
    let mut i: usize = a;
    while i < b
        invariant
            a <= i <= b <= bytes@.len(),
            r@ =~= bytes@.subrange(a as int, i as int),
        decreases b - i,
    {
        r.push(bytes[i]);
        proof {
            assert(r@ =~= bytes@.subrange(a as int, i + 1));
        }
        i = i + 1;
    }
    proof {
        assert(r@ =~= bytes@.subrange(a as int, b as int));
    }
    r
}

/// Restore a database from persisted bytes.  Corrupt bytes are refused by
/// yielding the empty database, never an error.
#[verifier::loop_isolation(false)]
#[verifier::rlimit(100)]
pub fn deserialize_db(bytes: &Vec<u8>) -> (r: Database)
    ensures
        r.wf(),
        r@.query_depth == 0,
        match sp_decode(bytes@) {
            Some((inputs, revision)) => r@.inputs == inputs && r@.revision == revision,
            None => r@.inputs == Seq::<(Seq<u8>, Seq<u8>)>::empty() && r@.revision == 0,
        },
{
    let n = bytes.len();
    if n < 21 {
        return Database::new();
    }
    let magic_ok = bytes[0] == 101 && bytes[1] == 120 && bytes[2] == 99 && bytes[3] == 49;
    if !magic_ok {
        proof {
            assert(bytes@.subrange(0, 4) != sp_magic()) by {
                if bytes@.subrange(0, 4) == sp_magic() {
                    assert(bytes@[0] == sp_magic()[0]);
                    assert(bytes@[1] == sp_magic()[1]);
                    assert(bytes@[2] == sp_magic()[2]);
                    assert(bytes@[3] == sp_magic()[3]);
                }
            }
        }
        return Database::new();
    }
    proof {
        assert(bytes@.subrange(0, 4) =~= sp_magic());
    }
    if bytes[12] != 0 {
        return Database::new();
    }
    let revision = read_u64(bytes, 4);
    let count = read_u64(bytes, 13);
    let ghost countv = dec_le(bytes@, 13, 8);
    let mut inputs: Vec<(Vec<u8>, Vec<u8>)> = Vec::new();
    let mut off: usize = 21;
    let mut remaining: u64 = count;
    proof {
        assert(inputs_view(inputs@) =~= Seq::<(Seq<u8>, Seq<u8>)>::empty());
    }
    while remaining > 0
        invariant
            n == bytes@.len(),
            21 <= off <= n,
            sp_decode_inputs(bytes@, 21, countv, Seq::empty()) == sp_decode_inputs(
                bytes@,
                off as int,
                remaining as int,
                inputs_view(inputs@),
            ),
        decreases remaining,
    {
        let ghost pre_acc = inputs_view(inputs@);
        if n - off < 8 {
            return Database::new();
        }
        let nl64 = read_u64(bytes, off);
        let avail = (n - off - 8) as u64;
        if avail < 8 || nl64 > avail - 8 {
            proof {
                assert(off + 8 + dec_le(bytes@, off as int, 8) + 8 > n);
            }
            return Database::new();
        }
        let nl = nl64 as usize;
        let name = copy_range(bytes, off + 8, off + 8 + nl);
        let tl64 = read_u64(bytes, off + 8 + nl);
        let avail2 = (n - off - 16 - nl) as u64;
        if tl64 > avail2 {
            proof {
                assert(off + 16 + dec_le(bytes@, off as int, 8) + dec_le(
                    bytes@,
                    off + 8 + dec_le(bytes@, off as int, 8),
                    8,
                ) > n);
            }
            return Database::new();
        }
        let tl = tl64 as usize;
        let text = copy_range(bytes, off + 16 + nl, off + 16 + nl + tl);
        inputs.push((name, text));
        proof {
            assert(inputs_view(inputs@) =~= pre_acc + seq![
                (
                    bytes@.subrange(off + 8, off + 8 + nl64 as int),
                    bytes@.subrange(off + 16 + nl64 as int, off + 16 + nl64 + tl64),
                ),
            ]);
        }
        off = off + 16 + nl + tl;
        remaining = remaining - 1;
    }
    // the nine derived tables, tagged and empty
    let mut expected: Vec<u8> = Vec::new();
    let mut t: u8 = 1;
    while t <= 9
        invariant
            1 <= t <= 10,
            expected@ =~= sp_tail().subrange(0, (t - 1) * 9),
        decreases 10 - t,
    {
        let ghost pre = expected@;
        expected.push(t);
        let mut z: usize = 0;
        while z < 8
            invariant
                0 <= z <= 8,
                expected@ =~= pre + seq![t] + sp_zero8().subrange(0, z as int),
            decreases 8 - z,
        {
            expected.push(0u8);
            proof {
                assert(expected@ =~= pre + seq![t] + sp_zero8().subrange(0, z + 1));
            }
            z = z + 1;
        }
        proof {
            assert(sp_zero8().subrange(0, 8) =~= sp_zero8());
            assert(expected@ =~= pre + (seq![t] + sp_zero8()));
            assert(expected@ =~= sp_tail().subrange(0, (t as int) * 9));
        }
        t = t + 1;
    }
    proof {
        assert(sp_tail().subrange(0, 81) =~= sp_tail());
        assert(expected@ =~= sp_tail());
    }
    if n - off != 81 {
        proof {
            assert(bytes@.subrange(off as int, n as int).len() != sp_tail().len());
        }
        return Database::new();
    }
    let mut j: usize = 0;
    while j < 81
        invariant
            n == bytes@.len(),
            off + 81 == n,
            0 <= j <= 81,
            forall|m: int| 0 <= m < j ==> bytes@[off + m] == sp_tail()[m],
        decreases 81 - j,
    {
        if bytes[off + j] != expected[j] {
            proof {
                assert(bytes@.subrange(off as int, n as int)[j as int] != sp_tail()[j as int]);
            }
            return Database::new();
        }
        j = j + 1;
    }
    proof {
        assert(bytes@.subrange(off as int, n as int) =~= sp_tail());
        assert((dec_le(bytes@, 4, 8) as u64) as int == dec_le(bytes@, 4, 8)) by {
            lemma_dec_le_bound(bytes@, 4, 8);
            lemma_pow256_8();
        }
    }
    Database::from_parts(inputs, revision)
}

} // verus!

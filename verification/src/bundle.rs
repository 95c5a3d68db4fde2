//! Sapling bundles and their two transaction layouts: the v4 components and the v5 bundle.

use crate::amount::{
    amount_encoding, amount_in_range, lemma_amount_canonical, lemma_amount_encoding_layout,
    lemma_amount_round_trip,
    read_amount, spec_read_amount, Amount,
};
use crate::curves::{field_element_valid, FieldElement};
use crate::encoding::{
    append_bytes, array_encoding, arrays_view, bytes_reader, bytes_writer, compact_size_encoding,
    compact_size_parse, compact_size_write, lemma_array_canonical, lemma_array_encoding_map,
    lemma_array_encoding_step, lemma_array_error_persists, lemma_array_round_trip,
    lemma_bytes_read_back_all, lemma_bytes_reads_canonically, lemma_compact_size_round_trip,
    lemma_array_encoding_uniform, lemma_subrange_within, lemma_take_then_take,
    lemma_vector_canonical, lemma_vector_round_trip, read_array,
    read_byte_arrays, read_compact_size, reads_back_all, reads_canonically, rest_of,
    spec_read_array, spec_read_bytes, spec_read_vector, vector_encoding, MAX_COMPACT_SIZE,
};
use crate::error::{ReadError, ReadErrorView, WriteError};
use crate::sapling::{
    lemma_output_v4_canonical, lemma_output_v4_layout, lemma_output_v4_round_trip,
    lemma_output_v5_layout, lemma_spend_v4_layout, lemma_spend_v5_layout,
    lemma_output_v5_canonical, lemma_output_v5_round_trip, lemma_spend_v4_canonical,
    lemma_spend_v4_round_trip, lemma_spend_v5_canonical, lemma_spend_v5_round_trip,
    output_v4_encoding, output_v5_encoding, read_base, read_output_v4, read_output_v5,
    read_spend_v4, read_spend_v5, spec_read_base, spec_read_output_v4, spec_read_output_v5,
    spec_read_spend_v4, spec_read_spend_v5, spend_v4_encoding, spend_v5_encoding, write_output_v4,
    write_output_v5_without_proof, write_spend_v4, write_spend_v5_without_witness_data,
    GROTH_PROOF_SIZE, OutputDescription, OutputDescriptionV5, OutputV5View, OutputView,
    SpendDescription, SpendDescriptionV5, SpendV5View, SpendView,
};
use vstd::bytes::spec_u64_to_le_bytes_to_open;
use vstd::prelude::*;

verus! {

/// The authorization of a bundle: its binding signature (`rbar || sbar`).
#[derive(Debug, Clone, Copy, PartialEq, Eq)]
pub struct Authorized {
    pub binding_sig: [u8; 64],
}

/// A Sapling bundle: its spends, its outputs, its value balance and its authorization.
#[derive(Debug, PartialEq, Eq)]
pub struct Bundle {
    pub shielded_spends: Vec<SpendDescription>,
    pub shielded_outputs: Vec<OutputDescription>,
    pub value_balance: Amount,
    pub authorization: Authorized,
}

/// A bundle taken by the views of its parts.
pub struct BundleView {
    pub spends: Seq<SpendView>,
    pub outputs: Seq<OutputView>,
    pub value_balance: int,
    pub binding_sig: Seq<u8>,
}

/// The views of a sequence of spend descriptions.
pub open spec fn spends_view(v: Seq<SpendDescription>) -> Seq<SpendView> {
    v.map_values(|s: SpendDescription| s@)
}

/// The views of a sequence of output descriptions.
pub open spec fn outputs_view(v: Seq<OutputDescription>) -> Seq<OutputView> {
    v.map_values(|o: OutputDescription| o@)
}

impl View for Bundle {
    type V = BundleView;

    open spec fn view(&self) -> BundleView {
        BundleView {
            spends: spends_view(self.shielded_spends@),
            outputs: outputs_view(self.shielded_outputs@),
            value_balance: self.value_balance@,
            binding_sig: self.authorization.binding_sig@,
        }
    }
}

/// The view of an optional bundle.
pub open spec fn bundle_option_view(b: Option<Bundle>) -> Option<BundleView> {
    match b {
        Some(b) => Some(b@),
        None => None,
    }
}

/// The view of an optional borrowed bundle.
pub open spec fn bundle_ref_view(b: Option<&Bundle>) -> Option<BundleView> {
    match b {
        Some(b) => Some(b@),
        None => None,
    }
}

impl BundleView {
    /// Every spend and output is well formed, the value balance is in range and the
    /// binding signature has its size: what every [`Bundle`] holds.
    pub open spec fn wf(self) -> bool {
        &&& forall|i: int| 0 <= i < self.spends.len() ==> #[trigger] self.spends[i].wf()
        &&& forall|i: int| 0 <= i < self.outputs.len() ==> #[trigger] self.outputs[i].wf()
        &&& amount_in_range(self.value_balance)
        &&& self.binding_sig.len() == 64
    }

    /// There are no more spends or outputs than a CompactSize can count.
    pub open spec fn fits_compact_size(self) -> bool {
        &&& self.spends.len() <= MAX_COMPACT_SIZE
        &&& self.outputs.len() <= MAX_COMPACT_SIZE
    }

    /// The bundle has at least one spend or output.
    pub open spec fn is_nonempty(self) -> bool {
        self.spends.len() > 0 || self.outputs.len() > 0
    }

    /// All spends use the anchor of the first: the v5 layout stores one anchor per bundle.
    pub open spec fn shares_anchor(self) -> bool {
        forall|i: int| 0 <= i < self.spends.len() ==> #[trigger] self.spends[i].anchor
            == self.spends[0].anchor
    }
}

/// The v4 spend reader, as an item reader.
pub open spec fn spend_v4_reader() -> spec_fn(Seq<u8>) -> Result<(SpendView, nat), ReadErrorView> {
    |t: Seq<u8>| spec_read_spend_v4(t)
}

/// The v4 spend encoding, as an item encoder.
pub open spec fn spend_v4_writer() -> spec_fn(SpendView) -> Seq<u8> {
    |v: SpendView| spend_v4_encoding(v)
}

/// The v4 output reader, as an item reader.
pub open spec fn output_v4_reader() -> spec_fn(Seq<u8>) -> Result<(OutputView, nat), ReadErrorView> {
    |t: Seq<u8>| spec_read_output_v4(t)
}

/// The v4 output encoding, as an item encoder.
pub open spec fn output_v4_writer() -> spec_fn(OutputView) -> Seq<u8> {
    |v: OutputView| output_v4_encoding(v)
}

/// Reads a CompactSize-counted vector of v4 spend descriptions.
fn read_spend_v4_vector(input: &[u8]) -> (r: Result<(Vec<SpendDescription>, usize), ReadError>)
    ensures
        match spec_read_vector(input@, spend_v4_reader()) {
            Ok((vs, n)) => r matches Ok((v, c)) && spends_view(v@) == vs && c == n,
            Err(e) => r matches Err(e2) && e2@ == e,
        },
{
    let (count, k) = match read_compact_size(input) {
        Ok(x) => x,
        Err(e) => return Err(e),
    };
    let ghost t = input@.skip(k as int);
    let len = input.len();
    let mut items: Vec<SpendDescription> = Vec::new();
    let mut pos: usize = k;
    let mut i: usize = 0;
    assert(spends_view(items@) =~= Seq::<SpendView>::empty());
    while i < count
        invariant
            k <= pos <= len,
            len == input@.len(),
            i <= count,
            t == input@.skip(k as int),
            compact_size_parse(input@) == Ok::<(nat, nat), ReadErrorView>(
                (count as nat, k as nat),
            ),
            spec_read_array(t, i as nat, spend_v4_reader()) == Ok::<
                (Seq<SpendView>, nat),
                ReadErrorView,
            >((spends_view(items@), (pos - k) as nat)),
        decreases count - i,
    {
        let rest = rest_of(input, pos);
        assert(rest@ =~= t.skip(pos - k));
        match read_spend_v4(rest) {
            Ok((v, n)) => {
                proof {
                    lemma_spend_v4_canonical(rest@);
                }
                let ghost before = items@;
                items.push(v);
                assert(spends_view(items@) =~= spends_view(before).push(v@));
                pos = pos + n;
                i = i + 1;
            },
            Err(e) => {
                proof {
                    assert(spend_v4_reader()(t.skip(pos - k)) == spec_read_spend_v4(rest@));
                    assert(spec_read_array(t, (i + 1) as nat, spend_v4_reader()) == Err::<
                        (Seq<SpendView>, nat),
                        ReadErrorView,
                    >(e@));
                    lemma_array_error_persists(t, (i + 1) as nat, count as nat, spend_v4_reader());
                }
                return Err(e);
            },
        }
    }
    Ok((items, pos))
}

/// Reads a CompactSize-counted vector of v4 output descriptions.
fn read_output_v4_vector(input: &[u8]) -> (r: Result<(Vec<OutputDescription>, usize), ReadError>)
    ensures
        match spec_read_vector(input@, output_v4_reader()) {
            Ok((vs, n)) => r matches Ok((v, c)) && outputs_view(v@) == vs && c == n,
            Err(e) => r matches Err(e2) && e2@ == e,
        },
{
    let (count, k) = match read_compact_size(input) {
        Ok(x) => x,
        Err(e) => return Err(e),
    };
    let ghost t = input@.skip(k as int);
    let len = input.len();
    let mut items: Vec<OutputDescription> = Vec::new();
    let mut pos: usize = k;
    let mut i: usize = 0;
    assert(outputs_view(items@) =~= Seq::<OutputView>::empty());
    while i < count
        invariant
            k <= pos <= len,
            len == input@.len(),
            i <= count,
            t == input@.skip(k as int),
            compact_size_parse(input@) == Ok::<(nat, nat), ReadErrorView>(
                (count as nat, k as nat),
            ),
            spec_read_array(t, i as nat, output_v4_reader()) == Ok::<
                (Seq<OutputView>, nat),
                ReadErrorView,
            >((outputs_view(items@), (pos - k) as nat)),
        decreases count - i,
    {
        let rest = rest_of(input, pos);
        assert(rest@ =~= t.skip(pos - k));
        match read_output_v4(rest) {
            Ok((v, n)) => {
                proof {
                    lemma_output_v4_canonical(rest@);
                }
                let ghost before = items@;
                items.push(v);
                assert(outputs_view(items@) =~= outputs_view(before).push(v@));
                pos = pos + n;
                i = i + 1;
            },
            Err(e) => {
                proof {
                    assert(output_v4_reader()(t.skip(pos - k)) == spec_read_output_v4(rest@));
                    assert(spec_read_array(t, (i + 1) as nat, output_v4_reader()) == Err::<
                        (Seq<OutputView>, nat),
                        ReadErrorView,
                    >(e@));
                    lemma_array_error_persists(t, (i + 1) as nat, count as nat, output_v4_reader());
                }
                return Err(e);
            },
        }
    }
    Ok((items, pos))
}

/// Writes a CompactSize-counted vector of v4 spend descriptions; every item written is well formed.
fn write_spend_v4_vector(out: &mut Vec<u8>, items: &Vec<SpendDescription>)
    ensures
        final(out)@ == old(out)@ + vector_encoding(spends_view(items@), spend_v4_writer()),
        forall|j: int| 0 <= j < items@.len() ==> #[trigger] spends_view(items@)[j].wf(),
{
    let written = compact_size_write(out, items.len());
    assert(written is Ok);
    let ghost start = out@;
    let ghost vs = spends_view(items@);
    let mut i: usize = 0;
    assert(vs.take(0) =~= Seq::<SpendView>::empty());
    while i < items.len()
        invariant
            i <= items@.len(),
            vs == spends_view(items@),
            out@ == start + array_encoding(vs.take(i as int), spend_v4_writer()),
            forall|j: int| 0 <= j < i ==> #[trigger] vs[j].wf(),
        decreases items@.len() - i,
    {
        write_spend_v4(out, &items[i]);
        proof {
            lemma_array_encoding_step(vs, i as int, spend_v4_writer());
        }
        i = i + 1;
    }
    assert(vs.take(items@.len() as int) =~= vs);
}

/// Writes a CompactSize-counted vector of v4 output descriptions; every item written is well formed.
fn write_output_v4_vector(out: &mut Vec<u8>, items: &Vec<OutputDescription>)
    ensures
        final(out)@ == old(out)@ + vector_encoding(outputs_view(items@), output_v4_writer()),
        forall|j: int| 0 <= j < items@.len() ==> #[trigger] outputs_view(items@)[j].wf(),
{
    let written = compact_size_write(out, items.len());
    assert(written is Ok);
    let ghost start = out@;
    let ghost vs = outputs_view(items@);
    let mut i: usize = 0;
    assert(vs.take(0) =~= Seq::<OutputView>::empty());
    while i < items.len()
        invariant
            i <= items@.len(),
            vs == outputs_view(items@),
            out@ == start + array_encoding(vs.take(i as int), output_v4_writer()),
            forall|j: int| 0 <= j < i ==> #[trigger] vs[j].wf(),
        decreases items@.len() - i,
    {
        write_output_v4(out, &items[i]);
        proof {
            lemma_array_encoding_step(vs, i as int, output_v4_writer());
        }
        i = i + 1;
    }
    assert(vs.take(items@.len() as int) =~= vs);
}

// ---------------------------------------------------------------------------
// The Sapling components of a v4 transaction
// ---------------------------------------------------------------------------

/// The v4 layout of a value balance, spends and outputs: the balance, then the spends and
/// the outputs as CompactSize-counted vectors.
pub open spec fn v4_components_parts_encoding(
    value_balance: int,
    spends: Seq<SpendView>,
    outputs: Seq<OutputView>,
) -> Seq<u8> {
    amount_encoding(value_balance) + vector_encoding(spends, spend_v4_writer()) + vector_encoding(
        outputs,
        output_v4_writer(),
    )
}

/// What the v4 layout holds for an optional bundle when Sapling is active: an absent
/// bundle is written as a zero balance and no spends or outputs.
pub open spec fn v4_components_encoding(b: Option<BundleView>) -> Seq<u8> {
    match b {
        Some(b) => v4_components_parts_encoding(b.value_balance, b.spends, b.outputs),
        None => v4_components_parts_encoding(0, Seq::empty(), Seq::empty()),
    }
}

/// Reading the Sapling components of a v4 transaction: nothing at all when Sapling is not
/// active (a zero balance and no spends or outputs), otherwise the balance and the two
/// vectors.
pub open spec fn spec_read_v4_components(s: Seq<u8>, tx_has_sapling: bool) -> Result<
    ((int, Seq<SpendView>, Seq<OutputView>), nat),
    ReadErrorView,
> {
    if !tx_has_sapling {
        Ok(((0, Seq::empty(), Seq::empty()), 0))
    } else {
        match spec_read_amount(s) {
            Err(e) => Err(e),
            Ok((vb, k1)) => match spec_read_vector(s.skip(k1 as int), spend_v4_reader()) {
                Err(e) => Err(e),
                Ok((ss, k2)) => match spec_read_vector(
                    s.skip((k1 + k2) as int),
                    output_v4_reader(),
                ) {
                    Err(e) => Err(e),
                    Ok((so, k3)) => Ok(((vb, ss, so), k1 + k2 + k3)),
                },
            },
        }
    }
}

/// Reads the Sapling components of a v4 transaction: the value balance, the spends and
/// the outputs, and the number of bytes read. When Sapling is not active nothing is read.
pub fn read_v4_components(input: &[u8], tx_has_sapling: bool) -> (r: Result<
    ((Amount, Vec<SpendDescription>, Vec<OutputDescription>), usize),
    ReadError,
>)
    ensures
        match spec_read_v4_components(input@, tx_has_sapling) {
            Ok(((vb, ss, so), n)) => r matches Ok(((a, sv, ov), c)) && a@ == vb && spends_view(
                sv@,
            ) == ss && outputs_view(ov@) == so && c == n,
            Err(e) => r matches Err(e2) && e2@ == e,
        },
{
    if tx_has_sapling {
        let len = input.len();
        let (vb, k1) = match read_amount(input) {
            Ok(x) => x,
            Err(e) => return Err(e),
        };
        let (ss, k2) = match read_spend_v4_vector(rest_of(input, k1)) {
            Ok(x) => x,
            Err(e) => return Err(e),
        };
        proof {
            lemma_spend_v4_reads_canonically();
            lemma_vector_canonical(
                input@.skip(k1 as int),
                spend_v4_writer(),
                spend_v4_reader(),
                |v: SpendView| v.wf(),
            );
        }
        assert(input@.skip(k1 as int).skip(k2 as int) =~= input@.skip(k1 + k2));
        assert(k1 + k2 <= len);
        let (so, k3) = match read_output_v4_vector(rest_of(input, k1 + k2)) {
            Ok(x) => x,
            Err(e) => return Err(e),
        };
        proof {
            lemma_output_v4_reads_canonically();
            lemma_vector_canonical(
                input@.skip((k1 + k2) as int),
                output_v4_writer(),
                output_v4_reader(),
                |v: OutputView| v.wf(),
            );
        }
        assert(k1 + k2 + k3 <= len);
        Ok(((vb, ss, so), k1 + k2 + k3))
    } else {
        let ss: Vec<SpendDescription> = Vec::new();
        let so: Vec<OutputDescription> = Vec::new();
        assert(spends_view(ss@) =~= Seq::<SpendView>::empty());
        assert(outputs_view(so@) =~= Seq::<OutputView>::empty());
        Ok(((Amount::zero(), ss, so), 0))
    }
}

/// Reads the Sapling components of a v4 transaction: the value balance, the spends and
/// the outputs, and the number of bytes read. When Sapling is not active nothing is read.
pub fn temporary_zcashd_read_v4_components(input: &[u8], tx_has_sapling: bool) -> (r: Result<
    ((Amount, Vec<SpendDescription>, Vec<OutputDescription>), usize),
    ReadError,
>)
    ensures
        match spec_read_v4_components(input@, tx_has_sapling) {
            Ok(((vb, ss, so), n)) => r matches Ok(((a, sv, ov), c)) && a@ == vb && spends_view(
                sv@,
            ) == ss && outputs_view(ov@) == so && c == n,
            Err(e) => r matches Err(e2) && e2@ == e,
        },
{
    read_v4_components(input, tx_has_sapling)
}

/// Writes the Sapling components of a v4 transaction. When Sapling is active, the
/// bundle's balance, spends and outputs are written (an absent bundle as a zero balance
/// and no spends or outputs). When it is not, nothing is written, and a bundle given is
/// refused.
pub fn write_v4_components(out: &mut Vec<u8>, bundle: Option<&Bundle>, tx_has_sapling: bool) -> (r:
    Result<(), WriteError>)
    ensures
        r is Ok <==> (tx_has_sapling || bundle is None),
        r matches Err(e) ==> e == WriteError::SaplingInactive,
        tx_has_sapling ==> final(out)@ == old(out)@ + v4_components_encoding(
            bundle_ref_view(bundle),
        ),
        !tx_has_sapling ==> final(out)@ == old(out)@,
        tx_has_sapling ==> (bundle matches Some(b) ==> b@.wf()),
{
    if tx_has_sapling {
        let vb = match bundle {
            Some(b) => b.value_balance,
            None => Amount::zero(),
        };
        proof {
            use_type_invariant(&vb);
        }
        let vb_bytes = vb.to_i64_le_bytes();
        append_bytes(out, vb_bytes.as_slice());
        match bundle {
            Some(b) => {
                write_spend_v4_vector(out, &b.shielded_spends);
                write_output_v4_vector(out, &b.shielded_outputs);
            },
            None => {
                let no_spends: Vec<SpendDescription> = Vec::new();
                let no_outputs: Vec<OutputDescription> = Vec::new();
                assert(spends_view(no_spends@) =~= Seq::<SpendView>::empty());
                assert(outputs_view(no_outputs@) =~= Seq::<OutputView>::empty());
                write_spend_v4_vector(out, &no_spends);
                write_output_v4_vector(out, &no_outputs);
            },
        }
        assert(out@ =~= old(out)@ + v4_components_encoding(bundle_ref_view(bundle)));
        Ok(())
    } else if bundle.is_some() {
        Err(WriteError::SaplingInactive)
    } else {
        Ok(())
    }
}

/// Writes the Sapling components of a v4 transaction (see [`write_v4_components`]).
pub fn temporary_zcashd_write_v4_components(
    out: &mut Vec<u8>,
    bundle: Option<&Bundle>,
    tx_has_sapling: bool,
) -> (r: Result<(), WriteError>)
    ensures
        r is Ok <==> (tx_has_sapling || bundle is None),
        r matches Err(e) ==> e == WriteError::SaplingInactive,
        tx_has_sapling ==> final(out)@ == old(out)@ + v4_components_encoding(
            bundle_ref_view(bundle),
        ),
        !tx_has_sapling ==> final(out)@ == old(out)@,
        tx_has_sapling ==> (bundle matches Some(b) ==> b@.wf()),
{
    write_v4_components(out, bundle, tx_has_sapling)
}

/// Every spend of `spends` reads back from its v4 encoding.
proof fn lemma_spends_v4_read_back(spends: Seq<SpendView>)
    requires
        forall|i: int| 0 <= i < spends.len() ==> #[trigger] spends[i].wf(),
    ensures
        reads_back_all(spends, spend_v4_writer(), spend_v4_reader()),
{
    assert forall|i: int, rest: Seq<u8>| 0 <= i < spends.len() implies #[trigger] spend_v4_reader()(
        spend_v4_writer()(spends[i]) + rest,
    ) == Ok::<(SpendView, nat), ReadErrorView>(
        (spends[i], spend_v4_writer()(spends[i]).len()),
    ) by {
        lemma_spend_v4_round_trip(spends[i], rest);
    }
}

/// Every output of `outputs` reads back from its v4 encoding.
proof fn lemma_outputs_v4_read_back(outputs: Seq<OutputView>)
    requires
        forall|i: int| 0 <= i < outputs.len() ==> #[trigger] outputs[i].wf(),
    ensures
        reads_back_all(outputs, output_v4_writer(), output_v4_reader()),
{
    assert forall|i: int, rest: Seq<u8>| 0 <= i < outputs.len() implies #[trigger] output_v4_reader()(
        output_v4_writer()(outputs[i]) + rest,
    ) == Ok::<(OutputView, nat), ReadErrorView>(
        (outputs[i], output_v4_writer()(outputs[i]).len()),
    ) by {
        lemma_output_v4_round_trip(outputs[i], rest);
    }
}

/// Law: when Sapling is active, the v4 components of a well-formed bundle read back as
/// its balance, spends and outputs, whatever follows them.
pub proof fn lemma_v4_components_round_trip(b: BundleView, rest: Seq<u8>)
    requires
        b.wf(),
        b.fits_compact_size(),
    ensures
        spec_read_v4_components(v4_components_encoding(Some(b)) + rest, true) == Ok::<
            ((int, Seq<SpendView>, Seq<OutputView>), nat),
            ReadErrorView,
        >(((b.value_balance, b.spends, b.outputs), v4_components_encoding(Some(b)).len())),
{
    let a = amount_encoding(b.value_balance);
    let vs = vector_encoding(b.spends, spend_v4_writer());
    let vo = vector_encoding(b.outputs, output_v4_writer());
    let s = v4_components_encoding(Some(b)) + rest;
    assert(s =~= a + (vs + (vo + rest)));
    lemma_amount_round_trip(b.value_balance, vs + (vo + rest));
    assert(s.skip(8) =~= vs + (vo + rest));
    lemma_spends_v4_read_back(b.spends);
    lemma_vector_round_trip(b.spends, spend_v4_writer(), spend_v4_reader(), vo + rest);
    assert(s.skip((8 + vs.len()) as int) =~= vo + rest);
    lemma_outputs_v4_read_back(b.outputs);
    lemma_vector_round_trip(b.outputs, output_v4_writer(), output_v4_reader(), rest);
}

/// Law: the v4 layout of the Sapling components of a well-formed bundle, byte by byte:
/// the value balance in bytes 0..8; the CompactSize count of the spends; each spend in
/// 384 bytes, in the bundle's order (value commitment, anchor, nullifier, randomized
/// validating key, proof, authorization signature); the CompactSize count of the outputs;
/// each output in 948 bytes, in the bundle's order (value commitment, note commitment,
/// ephemeral key, note ciphertext, outgoing ciphertext, proof); and nothing more.
#[verifier::spinoff_prover]
pub proof fn lemma_v4_components_layout(b: BundleView)
    requires
        b.wf(),
        b.fits_compact_size(),
    ensures
        ({
            let e = v4_components_encoding(Some(b));
            let c1 = compact_size_encoding(b.spends.len());
            let c2 = compact_size_encoding(b.outputs.len());
            let s0: int = 8 + c1.len() as int;
            let o0: int = s0 + 384 * b.spends.len() + c2.len();
            &&& e.len() == o0 + 948 * b.outputs.len()
            &&& e.subrange(0, 8) == amount_encoding(b.value_balance)
            &&& e.subrange(8, s0) == c1
            &&& forall|i: int|
                #![trigger b.spends[i]]
                0 <= i < b.spends.len() ==> e.subrange(s0 + 384 * i, s0 + 384 * i + 384) == b.spends[i].cv
                    + b.spends[i].anchor + b.spends[i].nullifier + b.spends[i].rk
                    + b.spends[i].zkproof + b.spends[i].spend_auth_sig
            &&& e.subrange(s0 + 384 * b.spends.len(), o0) == c2
            &&& forall|j: int|
                #![trigger b.outputs[j]]
                0 <= j < b.outputs.len() ==> e.subrange(o0 + 948 * j, o0 + 948 * j + 948) == b.outputs[j].cv
                    + b.outputs[j].cmu + b.outputs[j].ephemeral_key + b.outputs[j].enc_ciphertext
                    + b.outputs[j].out_ciphertext + b.outputs[j].zkproof
        }),
{
    let e = v4_components_encoding(Some(b));
    let a = amount_encoding(b.value_balance);
    let c1 = compact_size_encoding(b.spends.len());
    let c2 = compact_size_encoding(b.outputs.len());
    let sa = array_encoding(b.spends, spend_v4_writer());
    let oa = array_encoding(b.outputs, output_v4_writer());
    lemma_amount_encoding_layout(b.value_balance);
    assert forall|i: int| 0 <= i < b.spends.len() implies (#[trigger] spend_v4_writer()(
        b.spends[i],
    )).len() == 384 by {
        lemma_spend_v4_layout(b.spends[i]);
    }
    assert forall|j: int| 0 <= j < b.outputs.len() implies (#[trigger] output_v4_writer()(
        b.outputs[j],
    )).len() == 948 by {
        lemma_output_v4_layout(b.outputs[j]);
    }
    lemma_array_encoding_uniform(b.spends, spend_v4_writer(), 384);
    lemma_array_encoding_uniform(b.outputs, output_v4_writer(), 948);
    let x1 = a + c1;
    let x2 = a + c1 + sa + c2;
    assert(e =~= x1 + sa + (c2 + oa));
    assert(e =~= x2 + oa + Seq::<u8>::empty());
    assert(e.subrange(0, 8) =~= a);
    assert(e.subrange(8, x1.len() as int) =~= c1);
    assert(e.subrange((x1.len() + sa.len()) as int, x2.len() as int) =~= c2);
    assert forall|i: int|
        #![trigger b.spends[i]]
        0 <= i < b.spends.len() implies e.subrange(
        8 + c1.len() + 384 * i,
        8 + c1.len() + 384 * i + 384,
    ) == b.spends[i].cv + b.spends[i].anchor + b.spends[i].nullifier + b.spends[i].rk
        + b.spends[i].zkproof + b.spends[i].spend_auth_sig by {
        assert(sa.subrange(384 * i, 384 * i + 384) === spend_v4_writer()(b.spends[i]));
        lemma_subrange_within(x1, sa, c2 + oa, 384 * i, 384 * i + 384);
    }
    assert forall|j: int|
        #![trigger b.outputs[j]]
        0 <= j < b.outputs.len() implies e.subrange(
        x2.len() + 948 * j,
        x2.len() + 948 * j + 948,
    ) == b.outputs[j].cv + b.outputs[j].cmu + b.outputs[j].ephemeral_key
        + b.outputs[j].enc_ciphertext + b.outputs[j].out_ciphertext + b.outputs[j].zkproof by {
        assert(oa.subrange(948 * j, 948 * j + 948) === output_v4_writer()(b.outputs[j]));
        lemma_subrange_within(x2, oa, Seq::<u8>::empty(), 948 * j, 948 * j + 948);
    }
}

/// Law: v4 components read while Sapling is active come in the order of the bytes they
/// were read from: the value balance from bytes 0..8, the `i`-th spend from the `i`-th
/// block of 384 bytes after the spend count, and the `j`-th output from the `j`-th block
/// of 948 bytes after the output count, each field from its place in its block.
#[verifier::spinoff_prover]
pub proof fn lemma_v4_components_read_order(s: Seq<u8>)
    ensures
        spec_read_v4_components(s, true) matches Ok(((vb, ss, so), n)) ==> {
            let c1 = compact_size_encoding(ss.len());
            let c2 = compact_size_encoding(so.len());
            let s0: int = 8 + c1.len() as int;
            let o0: int = s0 + 384 * ss.len() + c2.len();
            &&& n == o0 + 948 * so.len()
            &&& s.subrange(0, 8) == amount_encoding(vb)
            &&& forall|i: int|
                #![trigger ss[i]]
                0 <= i < ss.len() ==> s.subrange(s0 + 384 * i, s0 + 384 * i + 384) == ss[i].cv
                    + ss[i].anchor + ss[i].nullifier + ss[i].rk + ss[i].zkproof
                    + ss[i].spend_auth_sig
            &&& forall|j: int|
                #![trigger so[j]]
                0 <= j < so.len() ==> s.subrange(o0 + 948 * j, o0 + 948 * j + 948) == so[j].cv
                    + so[j].cmu + so[j].ephemeral_key + so[j].enc_ciphertext
                    + so[j].out_ciphertext + so[j].zkproof
        },
{
    lemma_v4_components_canonical(s);
    if let Ok(((vb, ss, so), n)) = spec_read_v4_components(s, true) {
        let b = BundleView {
            spends: ss,
            outputs: so,
            value_balance: vb,
            binding_sig: Seq::new(64, |k: int| 0u8),
        };
        lemma_v4_components_layout(b);
        let e = v4_components_encoding(Some(b));
        assert(e == s.take(n as int));
        let c1 = compact_size_encoding(ss.len());
        let c2 = compact_size_encoding(so.len());
        let s0: int = 8 + c1.len() as int;
        let o0: int = s0 + 384 * ss.len() + c2.len();
        assert(s.subrange(0, 8) =~= e.subrange(0, 8));
        assert forall|i: int|
            #![trigger ss[i]]
            0 <= i < ss.len() implies s.subrange(s0 + 384 * i, s0 + 384 * i + 384) == ss[i].cv
            + ss[i].anchor + ss[i].nullifier + ss[i].rk + ss[i].zkproof + ss[i].spend_auth_sig by {
            assert(b.spends[i] == ss[i]);
            assert(384 * i + 384 <= 384 * ss.len()) by (nonlinear_arith)
                requires
                    0 <= i < ss.len(),
            ;
            assert(s.subrange(s0 + 384 * i, s0 + 384 * i + 384) =~= e.subrange(
                s0 + 384 * i,
                s0 + 384 * i + 384,
            ));
        }
        assert forall|j: int|
            #![trigger so[j]]
            0 <= j < so.len() implies s.subrange(o0 + 948 * j, o0 + 948 * j + 948) == so[j].cv
            + so[j].cmu + so[j].ephemeral_key + so[j].enc_ciphertext + so[j].out_ciphertext
            + so[j].zkproof by {
            assert(b.outputs[j] == so[j]);
            assert(948 * j + 948 <= 948 * so.len()) by (nonlinear_arith)
                requires
                    0 <= j < so.len(),
            ;
            assert(s.subrange(o0 + 948 * j, o0 + 948 * j + 948) =~= e.subrange(
                o0 + 948 * j,
                o0 + 948 * j + 948,
            ));
        }
    }
}

/// Law: when Sapling is active and no bundle was written, the v4 components read back
/// as a zero balance and no spends or outputs, from 10 bytes.
pub proof fn lemma_v4_components_absent_round_trip(rest: Seq<u8>)
    ensures
        spec_read_v4_components(v4_components_encoding(None) + rest, true) == Ok::<
            ((int, Seq<SpendView>, Seq<OutputView>), nat),
            ReadErrorView,
        >(((0, Seq::empty(), Seq::empty()), 10)),
{
    let b = BundleView {
        spends: Seq::empty(),
        outputs: Seq::empty(),
        value_balance: 0,
        binding_sig: Seq::new(64, |i: int| 0u8),
    };
    lemma_v4_components_round_trip(b, rest);
    lemma_compact_size_round_trip(0, Seq::empty());
    assert(array_encoding(Seq::<SpendView>::empty(), spend_v4_writer()) =~= Seq::<u8>::empty());
    assert(array_encoding(Seq::<OutputView>::empty(), output_v4_writer()) =~= Seq::<u8>::empty());
    lemma_amount_round_trip(0, Seq::empty());
}

/// Law: when Sapling is not active, reading v4 components reads nothing, whatever the
/// bytes, and gives a zero balance and no spends or outputs.
pub proof fn lemma_v4_components_inactive(s: Seq<u8>)
    ensures
        spec_read_v4_components(s, false) == Ok::<
            ((int, Seq<SpendView>, Seq<OutputView>), nat),
            ReadErrorView,
        >(((0, Seq::empty(), Seq::empty()), 0)),
{
}

/// Law: an absent bundle takes ten zero bytes in the v4 layout (a zero balance and two
/// zero counts) and two zero bytes in the v5 layout (two zero counts).
pub proof fn lemma_absent_bundle_bytes()
    ensures
        v4_components_encoding(None) == Seq::new(10, |i: int| 0u8),
        v5_bundle_encoding(None) == seq![0u8, 0u8],
{
    let a = amount_encoding(0);
    spec_u64_to_le_bytes_to_open(0u64);
    assert({
        &&& 0u64 & 0xff == 0
        &&& (0u64 >> 8u64) & 0xff == 0
        &&& (0u64 >> 16u64) & 0xff == 0
        &&& (0u64 >> 24u64) & 0xff == 0
        &&& (0u64 >> 32u64) & 0xff == 0
        &&& (0u64 >> 40u64) & 0xff == 0
        &&& (0u64 >> 48u64) & 0xff == 0
        &&& (0u64 >> 56u64) & 0xff == 0
    }) by (bit_vector);
    assert(a =~= Seq::new(8, |i: int| 0u8));
    assert(array_encoding(Seq::<SpendView>::empty(), spend_v4_writer()) =~= Seq::<u8>::empty());
    assert(array_encoding(Seq::<OutputView>::empty(), output_v4_writer()) =~= Seq::<u8>::empty());
    assert(v4_components_encoding(None) =~= Seq::new(10, |i: int| 0u8));
    assert(v5_bundle_encoding(None) =~= seq![0u8, 0u8]);
}

/// Law: v4 components read while Sapling is active are well formed, and are written back
/// as exactly the bytes they were read from.
pub proof fn lemma_v4_components_canonical(s: Seq<u8>)
    ensures
        spec_read_v4_components(s, true) matches Ok(((vb, ss, so), n)) ==> {
            &&& n <= s.len()
            &&& v4_components_parts_encoding(vb, ss, so) == s.take(n as int)
            &&& amount_in_range(vb)
            &&& ss.len() <= MAX_COMPACT_SIZE
            &&& so.len() <= MAX_COMPACT_SIZE
            &&& forall|i: int| 0 <= i < ss.len() ==> #[trigger] ss[i].wf()
            &&& forall|i: int| 0 <= i < so.len() ==> #[trigger] so[i].wf()
        },
{
    lemma_amount_canonical(s);
    if let Ok((vb, k1)) = spec_read_amount(s) {
        let t1 = s.skip(k1 as int);
        lemma_spend_v4_reads_canonically();
        lemma_vector_canonical(t1, spend_v4_writer(), spend_v4_reader(), |v: SpendView| v.wf());
        if let Ok((ss, k2)) = spec_read_vector(t1, spend_v4_reader()) {
            let t2 = s.skip((k1 + k2) as int);
            lemma_output_v4_reads_canonically();
            lemma_vector_canonical(
                t2,
                output_v4_writer(),
                output_v4_reader(),
                |v: OutputView| v.wf(),
            );
            if let Ok((so, k3)) = spec_read_vector(t2, output_v4_reader()) {
                assert(t1.skip(k2 as int) =~= t2);
                assert(s.take(k1 as int) + t1.take(k2 as int) + t2.take(k3 as int) =~= s.take(
                    (k1 + k2 + k3) as int,
                ));
                assert forall|i: int| 0 <= i < ss.len() implies #[trigger] ss[i].wf() by {
                    assert((|v: SpendView| v.wf())(ss[i]));
                }
                assert forall|i: int| 0 <= i < so.len() implies #[trigger] so[i].wf() by {
                    assert((|v: OutputView| v.wf())(so[i]));
                }
            }
        }
    }
}

/// The v4 spend reader is canonical and reads only well-formed spends.
proof fn lemma_spend_v4_reads_canonically()
    ensures
        reads_canonically(spend_v4_writer(), spend_v4_reader(), |v: SpendView| v.wf()),
{
    assert forall|t: Seq<u8>|
        (#[trigger] spend_v4_reader()(t) matches Ok((v, k)) ==> k <= t.len() && spend_v4_writer()(v)
            == t.take(k as int) && (|v: SpendView| v.wf())(v)) by {
        lemma_spend_v4_canonical(t);
    }
}

/// The v4 output reader is canonical and reads only well-formed outputs.
proof fn lemma_output_v4_reads_canonically()
    ensures
        reads_canonically(output_v4_writer(), output_v4_reader(), |v: OutputView| v.wf()),
{
    assert forall|t: Seq<u8>|
        (#[trigger] output_v4_reader()(t) matches Ok((v, k)) ==> k <= t.len() && output_v4_writer()(
            v,
        ) == t.take(k as int) && (|v: OutputView| v.wf())(v)) by {
        lemma_output_v4_canonical(t);
    }
}

// ---------------------------------------------------------------------------
// The Sapling bundle of a v5 transaction
// ---------------------------------------------------------------------------

/// The v5 spend reader (the part kept together), as an item reader.
pub open spec fn spend_v5_reader() -> spec_fn(Seq<u8>) -> Result<(SpendV5View, nat), ReadErrorView> {
    |t: Seq<u8>| spec_read_spend_v5(t)
}

/// The v5 spend encoding (the part kept together), as an item encoder.
pub open spec fn spend_v5_writer() -> spec_fn(SpendV5View) -> Seq<u8> {
    |v: SpendV5View| spend_v5_encoding(v)
}

/// The v5 output reader (the part kept together), as an item reader.
pub open spec fn output_v5_reader() -> spec_fn(Seq<u8>) -> Result<(OutputV5View, nat), ReadErrorView> {
    |t: Seq<u8>| spec_read_output_v5(t)
}

/// The v5 output encoding (the part kept together), as an item encoder.
pub open spec fn output_v5_writer() -> spec_fn(OutputV5View) -> Seq<u8> {
    |v: OutputV5View| output_v5_encoding(v)
}

/// The views of a sequence of v5 spend parts.
pub open spec fn spends_v5_view(v: Seq<SpendDescriptionV5>) -> Seq<SpendV5View> {
    v.map_values(|s: SpendDescriptionV5| s@)
}

/// The views of a sequence of v5 output parts.
pub open spec fn outputs_v5_view(v: Seq<OutputDescriptionV5>) -> Seq<OutputV5View> {
    v.map_values(|o: OutputDescriptionV5| o@)
}

/// The pieces of a v5 bundle in the order the v5 layout stores them. The anchor is
/// empty when there are no spends; the balance is zero and the binding signature empty
/// when there are neither spends nor outputs.
pub struct V5Parts {
    pub spends: Seq<SpendV5View>,
    pub outputs: Seq<OutputV5View>,
    pub value_balance: int,
    pub anchor: Seq<u8>,
    pub spend_proofs: Seq<Seq<u8>>,
    pub spend_auth_sigs: Seq<Seq<u8>>,
    pub output_proofs: Seq<Seq<u8>>,
    pub binding_sig: Seq<u8>,
}

impl V5Parts {
    /// There is at least one spend or output.
    pub open spec fn is_nonempty(self) -> bool {
        self.spends.len() > 0 || self.outputs.len() > 0
    }

    /// What a v5 reader can return.
    pub open spec fn wf(self) -> bool {
        &&& self.spends.len() <= MAX_COMPACT_SIZE
        &&& self.outputs.len() <= MAX_COMPACT_SIZE
        &&& forall|i: int| 0 <= i < self.spends.len() ==> #[trigger] self.spends[i].wf()
        &&& forall|i: int| 0 <= i < self.outputs.len() ==> #[trigger] self.outputs[i].wf()
        &&& amount_in_range(self.value_balance)
        &&& (self.is_nonempty() || self.value_balance == 0)
        &&& (self.spends.len() > 0 ==> self.anchor.len() == 32 && field_element_valid(self.anchor))
        &&& (self.spends.len() == 0 ==> self.anchor == Seq::<u8>::empty())
        &&& self.spend_proofs.len() == self.spends.len()
        &&& self.spend_auth_sigs.len() == self.spends.len()
        &&& self.output_proofs.len() == self.outputs.len()
        &&& forall|i: int| 0 <= i < self.spend_proofs.len() ==> #[trigger] self.spend_proofs[i].len() == 192
        &&& forall|i: int| 0 <= i < self.spend_auth_sigs.len() ==> #[trigger] self.spend_auth_sigs[i].len() == 64
        &&& forall|i: int| 0 <= i < self.output_proofs.len() ==> #[trigger] self.output_proofs[i].len() == 192
        &&& (self.is_nonempty() ==> self.binding_sig.len() == 64)
        &&& (!self.is_nonempty() ==> self.binding_sig == Seq::<u8>::empty())
    }

    /// The spends, each put together from its part, the shared anchor, its proof and
    /// its signature.
    pub open spec fn full_spends(self) -> Seq<SpendView> {
        Seq::new(
            self.spends.len(),
            |i: int|
                SpendView {
                    cv: self.spends[i].cv,
                    anchor: self.anchor,
                    nullifier: self.spends[i].nullifier,
                    rk: self.spends[i].rk,
                    zkproof: self.spend_proofs[i],
                    spend_auth_sig: self.spend_auth_sigs[i],
                },
        )
    }

    /// The outputs, each put together from its part and its proof.
    pub open spec fn full_outputs(self) -> Seq<OutputView> {
        Seq::new(
            self.outputs.len(),
            |i: int|
                OutputView {
                    cv: self.outputs[i].cv,
                    cmu: self.outputs[i].cmu,
                    ephemeral_key: self.outputs[i].ephemeral_key,
                    enc_ciphertext: self.outputs[i].enc_ciphertext,
                    out_ciphertext: self.outputs[i].out_ciphertext,
                    zkproof: self.output_proofs[i],
                },
        )
    }

    /// The bundle these pieces make: none when there are neither spends nor outputs.
    pub open spec fn bundle(self) -> Option<BundleView> {
        if self.is_nonempty() {
            Some(
                BundleView {
                    spends: self.full_spends(),
                    outputs: self.full_outputs(),
                    value_balance: self.value_balance,
                    binding_sig: self.binding_sig,
                },
            )
        } else {
            None
        }
    }
}

/// Reading the pieces of a v5 bundle: the spend parts and output parts (CompactSize
/// counted); then, when there is a spend or an output, the value balance; when there is
/// a spend, the anchor; then the spend proofs, the spend authorization signatures and
/// the output proofs; and, when there is a spend or an output, the binding signature.
pub open spec fn spec_read_v5_parts(s: Seq<u8>) -> Result<(V5Parts, nat), ReadErrorView> {
    match spec_read_vector(s, spend_v5_reader()) {
        Err(e) => Err(e),
        Ok((sd, n1)) => match spec_read_vector(s.skip(n1 as int), output_v5_reader()) {
            Err(e) => Err(e),
            Ok((od, n2)) => {
                let nonempty = sd.len() > 0 || od.len() > 0;
                let p2 = n1 + n2;
                match (if nonempty {
                    spec_read_amount(s.skip(p2 as int))
                } else {
                    Ok((0int, 0nat))
                }) {
                    Err(e) => Err(e),
                    Ok((vb, n3)) => {
                        let p3 = p2 + n3;
                        match (if sd.len() > 0 {
                            spec_read_base(s.skip(p3 as int), "anchor"@)
                        } else {
                            Ok((Seq::<u8>::empty(), 0nat))
                        }) {
                            Err(e) => Err(e),
                            Ok((anchor, n4)) => {
                                let p4 = p3 + n4;
                                match spec_read_array(s.skip(p4 as int), sd.len(), bytes_reader(192)) {
                                    Err(e) => Err(e),
                                    Ok((sp, n5)) => {
                                        let p5 = p4 + n5;
                                        match spec_read_array(
                                            s.skip(p5 as int),
                                            sd.len(),
                                            bytes_reader(64),
                                        ) {
                                            Err(e) => Err(e),
                                            Ok((sa, n6)) => {
                                                let p6 = p5 + n6;
                                                match spec_read_array(
                                                    s.skip(p6 as int),
                                                    od.len(),
                                                    bytes_reader(192),
                                                ) {
                                                    Err(e) => Err(e),
                                                    Ok((op, n7)) => {
                                                        let p7 = p6 + n7;
                                                        match (if nonempty {
                                                            spec_read_bytes(s.skip(p7 as int), 64)
                                                        } else {
                                                            Ok((Seq::<u8>::empty(), 0nat))
                                                        }) {
                                                            Err(e) => Err(e),
                                                            Ok((bsig, n8)) => Ok(
                                                                (
                                                                    V5Parts {
                                                                        spends: sd,
                                                                        outputs: od,
                                                                        value_balance: vb,
                                                                        anchor,
                                                                        spend_proofs: sp,
                                                                        spend_auth_sigs: sa,
                                                                        output_proofs: op,
                                                                        binding_sig: bsig,
                                                                    },
                                                                    p7 + n8,
                                                                ),
                                                            ),
                                                        }
                                                    },
                                                }
                                            },
                                        }
                                    },
                                }
                            },
                        }
                    },
                }
            },
        },
    }
}

/// Reading a bundle in the v5 layout: its pieces, put together; none when the
/// bundle has neither spends nor outputs.
pub open spec fn spec_read_v5_bundle(s: Seq<u8>) -> Result<(Option<BundleView>, nat), ReadErrorView> {
    match spec_read_v5_parts(s) {
        Err(e) => Err(e),
        Ok((p, n)) => Ok((p.bundle(), n)),
    }
}

/// The pieces of a v5 bundle as read.
struct V5Components {
    spends: Vec<SpendDescriptionV5>,
    outputs: Vec<OutputDescriptionV5>,
    value_balance: Amount,
    anchor: Option<FieldElement>,
    spend_proofs: Vec<[u8; GROTH_PROOF_SIZE]>,
    spend_auth_sigs: Vec<[u8; 64]>,
    output_proofs: Vec<[u8; GROTH_PROOF_SIZE]>,
    binding_sig: Option<[u8; 64]>,
}

impl View for V5Components {
    type V = V5Parts;

    closed spec fn view(&self) -> V5Parts {
        V5Parts {
            spends: spends_v5_view(self.spends@),
            outputs: outputs_v5_view(self.outputs@),
            value_balance: self.value_balance@,
            anchor: match self.anchor {
                Some(a) => a@,
                None => Seq::empty(),
            },
            spend_proofs: arrays_view(self.spend_proofs@),
            spend_auth_sigs: arrays_view(self.spend_auth_sigs@),
            output_proofs: arrays_view(self.output_proofs@),
            binding_sig: match self.binding_sig {
                Some(b) => b@,
                None => Seq::empty(),
            },
        }
    }
}

/// Reads a CompactSize-counted vector of v5 spend parts.
fn read_spend_v5_vector(input: &[u8]) -> (r: Result<(Vec<SpendDescriptionV5>, usize), ReadError>)
    ensures
        match spec_read_vector(input@, spend_v5_reader()) {
            Ok((vs, n)) => r matches Ok((v, c)) && spends_v5_view(v@) == vs && c == n,
            Err(e) => r matches Err(e2) && e2@ == e,
        },
{
    let (count, k) = match read_compact_size(input) {
        Ok(x) => x,
        Err(e) => return Err(e),
    };
    let ghost t = input@.skip(k as int);
    let len = input.len();
    let mut items: Vec<SpendDescriptionV5> = Vec::new();
    let mut pos: usize = k;
    let mut i: usize = 0;
    assert(spends_v5_view(items@) =~= Seq::<SpendV5View>::empty());
    while i < count
        invariant
            k <= pos <= len,
            len == input@.len(),
            i <= count,
            t == input@.skip(k as int),
            compact_size_parse(input@) == Ok::<(nat, nat), ReadErrorView>(
                (count as nat, k as nat),
            ),
            spec_read_array(t, i as nat, spend_v5_reader()) == Ok::<
                (Seq<SpendV5View>, nat),
                ReadErrorView,
            >((spends_v5_view(items@), (pos - k) as nat)),
        decreases count - i,
    {
        let rest = rest_of(input, pos);
        assert(rest@ =~= t.skip(pos - k));
        match read_spend_v5(rest) {
            Ok((v, n)) => {
                proof {
                    lemma_spend_v5_canonical(rest@);
                }
                let ghost before = items@;
                items.push(v);
                assert(spends_v5_view(items@) =~= spends_v5_view(before).push(v@));
                pos = pos + n;
                i = i + 1;
            },
            Err(e) => {
                proof {
                    assert(spend_v5_reader()(t.skip(pos - k)) == spec_read_spend_v5(rest@));
                    assert(spec_read_array(t, (i + 1) as nat, spend_v5_reader()) == Err::<
                        (Seq<SpendV5View>, nat),
                        ReadErrorView,
                    >(e@));
                    lemma_array_error_persists(t, (i + 1) as nat, count as nat, spend_v5_reader());
                }
                return Err(e);
            },
        }
    }
    Ok((items, pos))
}

/// Reads a CompactSize-counted vector of v5 output parts.
fn read_output_v5_vector(input: &[u8]) -> (r: Result<(Vec<OutputDescriptionV5>, usize), ReadError>)
    ensures
        match spec_read_vector(input@, output_v5_reader()) {
            Ok((vs, n)) => r matches Ok((v, c)) && outputs_v5_view(v@) == vs && c == n,
            Err(e) => r matches Err(e2) && e2@ == e,
        },
{
    let (count, k) = match read_compact_size(input) {
        Ok(x) => x,
        Err(e) => return Err(e),
    };
    let ghost t = input@.skip(k as int);
    let len = input.len();
    let mut items: Vec<OutputDescriptionV5> = Vec::new();
    let mut pos: usize = k;
    let mut i: usize = 0;
    assert(outputs_v5_view(items@) =~= Seq::<OutputV5View>::empty());
    while i < count
        invariant
            k <= pos <= len,
            len == input@.len(),
            i <= count,
            t == input@.skip(k as int),
            compact_size_parse(input@) == Ok::<(nat, nat), ReadErrorView>(
                (count as nat, k as nat),
            ),
            spec_read_array(t, i as nat, output_v5_reader()) == Ok::<
                (Seq<OutputV5View>, nat),
                ReadErrorView,
            >((outputs_v5_view(items@), (pos - k) as nat)),
        decreases count - i,
    {
        let rest = rest_of(input, pos);
        assert(rest@ =~= t.skip(pos - k));
        match read_output_v5(rest) {
            Ok((v, n)) => {
                proof {
                    lemma_output_v5_canonical(rest@);
                }
                let ghost before = items@;
                items.push(v);
                assert(outputs_v5_view(items@) =~= outputs_v5_view(before).push(v@));
                pos = pos + n;
                i = i + 1;
            },
            Err(e) => {
                proof {
                    assert(output_v5_reader()(t.skip(pos - k)) == spec_read_output_v5(rest@));
                    assert(spec_read_array(t, (i + 1) as nat, output_v5_reader()) == Err::<
                        (Seq<OutputV5View>, nat),
                        ReadErrorView,
                    >(e@));
                    lemma_array_error_persists(t, (i + 1) as nat, count as nat, output_v5_reader());
                }
                return Err(e);
            },
        }
    }
    Ok((items, pos))
}

/// The v5 layout of the pieces of a bundle.
pub open spec fn v5_parts_encoding(p: V5Parts) -> Seq<u8> {
    vector_encoding(p.spends, spend_v5_writer()) + vector_encoding(p.outputs, output_v5_writer()) + (
    if p.is_nonempty() {
        amount_encoding(p.value_balance)
    } else {
        Seq::empty()
    }) + (if p.spends.len() > 0 {
        p.anchor
    } else {
        Seq::empty()
    }) + array_encoding(p.spend_proofs, bytes_writer()) + array_encoding(
        p.spend_auth_sigs,
        bytes_writer(),
    ) + array_encoding(p.output_proofs, bytes_writer()) + (if p.is_nonempty() {
        p.binding_sig
    } else {
        Seq::empty()
    })
}

/// The v5 spend reader is canonical and reads only well-formed spend parts.
proof fn lemma_spend_v5_reads_canonically()
    ensures
        reads_canonically(spend_v5_writer(), spend_v5_reader(), |v: SpendV5View| v.wf()),
{
    assert forall|t: Seq<u8>|
        (#[trigger] spend_v5_reader()(t) matches Ok((v, k)) ==> k <= t.len() && spend_v5_writer()(v)
            == t.take(k as int) && (|v: SpendV5View| v.wf())(v)) by {
        lemma_spend_v5_canonical(t);
    }
}

/// The v5 output reader is canonical and reads only well-formed output parts.
proof fn lemma_output_v5_reads_canonically()
    ensures
        reads_canonically(output_v5_writer(), output_v5_reader(), |v: OutputV5View| v.wf()),
{
    assert forall|t: Seq<u8>|
        (#[trigger] output_v5_reader()(t) matches Ok((v, k)) ==> k <= t.len() && output_v5_writer()(
            v,
        ) == t.take(k as int) && (|v: OutputV5View| v.wf())(v)) by {
        lemma_output_v5_canonical(t);
    }
}

/// The pieces of a v5 bundle, when read, are well formed and are written back as exactly
/// the bytes they were read from.
#[verifier::rlimit(60)]
#[verifier::spinoff_prover]
pub proof fn lemma_v5_parts_canonical(s: Seq<u8>)
    ensures
        spec_read_v5_parts(s) matches Ok((p, n)) ==> n <= s.len() && p.wf() && v5_parts_encoding(p)
            == s.take(n as int),
{
    lemma_spend_v5_reads_canonically();
    lemma_output_v5_reads_canonically();
    lemma_bytes_reads_canonically(192);
    lemma_bytes_reads_canonically(64);
    lemma_vector_canonical(s, spend_v5_writer(), spend_v5_reader(), |v: SpendV5View| v.wf());
    if let Ok((sd, n1)) = spec_read_vector(s, spend_v5_reader()) {
        let s1 = s.skip(n1 as int);
        lemma_vector_canonical(s1, output_v5_writer(), output_v5_reader(), |v: OutputV5View| v.wf());
        if let Ok((od, n2)) = spec_read_vector(s1, output_v5_reader()) {
            lemma_take_then_take(s, n1, n2);
            let nonempty = sd.len() > 0 || od.len() > 0;
            let p2 = n1 + n2;
            let s2 = s.skip(p2 as int);
            lemma_amount_canonical(s2);
            let r3 = if nonempty {
                spec_read_amount(s2)
            } else {
                Ok((0int, 0nat))
            };
            if let Ok((vb, n3)) = r3 {
                lemma_take_then_take(s, p2, n3);
                let p3 = p2 + n3;
                let s3 = s.skip(p3 as int);
                let r4 = if sd.len() > 0 {
                    spec_read_base(s3, "anchor"@)
                } else {
                    Ok((Seq::<u8>::empty(), 0nat))
                };
                if let Ok((anchor, n4)) = r4 {
                    lemma_take_then_take(s, p3, n4);
                    let p4 = p3 + n4;
                    let s4 = s.skip(p4 as int);
                    lemma_array_canonical(
                        s4,
                        sd.len(),
                        bytes_writer(),
                        bytes_reader(192),
                        |b: Seq<u8>| b.len() == 192,
                    );
                    if let Ok((sp, n5)) = spec_read_array(s4, sd.len(), bytes_reader(192)) {
                        lemma_take_then_take(s, p4, n5);
                        let p5 = p4 + n5;
                        let s5 = s.skip(p5 as int);
                        lemma_array_canonical(
                            s5,
                            sd.len(),
                            bytes_writer(),
                            bytes_reader(64),
                            |b: Seq<u8>| b.len() == 64,
                        );
                        if let Ok((sa, n6)) = spec_read_array(s5, sd.len(), bytes_reader(64)) {
                            lemma_take_then_take(s, p5, n6);
                            let p6 = p5 + n6;
                            let s6 = s.skip(p6 as int);
                            lemma_array_canonical(
                                s6,
                                od.len(),
                                bytes_writer(),
                                bytes_reader(192),
                                |b: Seq<u8>| b.len() == 192,
                            );
                            if let Ok((op, n7)) = spec_read_array(s6, od.len(), bytes_reader(192)) {
                                lemma_take_then_take(s, p6, n7);
                                let p7 = p6 + n7;
                                let s7 = s.skip(p7 as int);
                                let r8 = if nonempty {
                                    spec_read_bytes(s7, 64)
                                } else {
                                    Ok((Seq::<u8>::empty(), 0nat))
                                };
                                if let Ok((bsig, n8)) = r8 {
                                    lemma_take_then_take(s, p7, n8);
                                    let p = V5Parts {
                                        spends: sd,
                                        outputs: od,
                                        value_balance: vb,
                                        anchor,
                                        spend_proofs: sp,
                                        spend_auth_sigs: sa,
                                        output_proofs: op,
                                        binding_sig: bsig,
                                    };
                                    assert(spec_read_v5_parts(s) == Ok::<(V5Parts, nat), ReadErrorView>(
                                        (p, p7 + n8),
                                    ));
                                    assert forall|i: int| 0 <= i < sd.len() implies #[trigger] sd[i].wf() by {
                                        assert((|v: SpendV5View| v.wf())(sd[i]));
                                    }
                                    assert forall|i: int| 0 <= i < od.len() implies #[trigger] od[i].wf() by {
                                        assert((|v: OutputV5View| v.wf())(od[i]));
                                    }
                                    assert forall|i: int| 0 <= i < sp.len() implies #[trigger] sp[i].len() == 192 by {
                                        assert((|b: Seq<u8>| b.len() == 192)(sp[i]));
                                    }
                                    assert forall|i: int| 0 <= i < sa.len() implies #[trigger] sa[i].len() == 64 by {
                                        assert((|b: Seq<u8>| b.len() == 64)(sa[i]));
                                    }
                                    assert forall|i: int| 0 <= i < op.len() implies #[trigger] op[i].len() == 192 by {
                                        assert((|b: Seq<u8>| b.len() == 192)(op[i]));
                                    }
                                    assert(p.wf());
                                    assert(v5_parts_encoding(p) =~= s.take((p7 + n8) as int));
                                }
                            }
                        }
                    }
                }
            }
        }
    }
}

/// Reads the pieces of a bundle in the v5 layout.
fn read_v5_components(input: &[u8]) -> (r: Result<(V5Components, usize), ReadError>)
    ensures
        match spec_read_v5_parts(input@) {
            Ok((p, n)) => r matches Ok((c, k)) && c@ == p && k == n,
            Err(e) => r matches Err(e2) && e2@ == e,
        },
{
    let len = input.len();
    proof {
        lemma_spend_v5_reads_canonically();
        lemma_output_v5_reads_canonically();
        lemma_bytes_reads_canonically(192);
        lemma_bytes_reads_canonically(64);
    }
    let (spends, n1) = match read_spend_v5_vector(input) {
        Ok(x) => x,
        Err(e) => return Err(e),
    };
    proof {
        lemma_vector_canonical(input@, spend_v5_writer(), spend_v5_reader(), |v: SpendV5View| v.wf());
    }
    let (outputs, n2) = match read_output_v5_vector(rest_of(input, n1)) {
        Ok(x) => x,
        Err(e) => return Err(e),
    };
    proof {
        lemma_vector_canonical(
            input@.skip(n1 as int),
            output_v5_writer(),
            output_v5_reader(),
            |v: OutputV5View| v.wf(),
        );
        lemma_take_then_take(input@, n1 as nat, n2 as nat);
    }
    let p2 = n1 + n2;
    let nonempty = spends.len() > 0 || outputs.len() > 0;
    let (value_balance, n3) = if nonempty {
        match read_amount(rest_of(input, p2)) {
            Ok(x) => x,
            Err(e) => return Err(e),
        }
    } else {
        (Amount::zero(), 0)
    };
    proof {
        lemma_amount_canonical(input@.skip(p2 as int));
        lemma_take_then_take(input@, p2 as nat, n3 as nat);
    }
    let p3 = p2 + n3;
    let (anchor, n4) = if spends.len() > 0 {
        match read_base(rest_of(input, p3), "anchor") {
            Ok((a, k)) => (Some(a), k),
            Err(e) => return Err(e),
        }
    } else {
        (None, 0)
    };
    proof {
        lemma_take_then_take(input@, p3 as nat, n4 as nat);
    }
    let p4 = p3 + n4;
    let (spend_proofs, n5) = match read_byte_arrays::<GROTH_PROOF_SIZE>(
        rest_of(input, p4),
        spends.len(),
    ) {
        Ok(x) => x,
        Err(e) => return Err(e),
    };
    proof {
        lemma_array_canonical(
            input@.skip(p4 as int),
            spends.len() as nat,
            bytes_writer(),
            bytes_reader(192),
            |b: Seq<u8>| b.len() == 192,
        );
        lemma_take_then_take(input@, p4 as nat, n5 as nat);
    }
    let p5 = p4 + n5;
    let (spend_auth_sigs, n6) = match read_byte_arrays::<64>(rest_of(input, p5), spends.len()) {
        Ok(x) => x,
        Err(e) => return Err(e),
    };
    proof {
        lemma_array_canonical(
            input@.skip(p5 as int),
            spends.len() as nat,
            bytes_writer(),
            bytes_reader(64),
            |b: Seq<u8>| b.len() == 64,
        );
        lemma_take_then_take(input@, p5 as nat, n6 as nat);
    }
    let p6 = p5 + n6;
    let (output_proofs, n7) = match read_byte_arrays::<GROTH_PROOF_SIZE>(
        rest_of(input, p6),
        outputs.len(),
    ) {
        Ok(x) => x,
        Err(e) => return Err(e),
    };
    proof {
        lemma_array_canonical(
            input@.skip(p6 as int),
            outputs.len() as nat,
            bytes_writer(),
            bytes_reader(192),
            |b: Seq<u8>| b.len() == 192,
        );
        lemma_take_then_take(input@, p6 as nat, n7 as nat);
    }
    let p7 = p6 + n7;
    let (binding_sig, n8) = if nonempty {
        match read_array::<64>(rest_of(input, p7)) {
            Ok((b, k)) => (Some(b), k),
            Err(e) => return Err(e),
        }
    } else {
        (None, 0)
    };
    let c = V5Components {
        spends,
        outputs,
        value_balance,
        anchor,
        spend_proofs,
        spend_auth_sigs,
        output_proofs,
        binding_sig,
    };
    Ok((c, p7 + n8))
}

/// Puts the spends of a v5 bundle together from their pieces.
fn assemble_spends(c: &V5Components) -> (r: Vec<SpendDescription>)
    requires
        c@.wf(),
    ensures
        spends_view(r@) == c@.full_spends(),
{
    if c.spends.len() == 0 {
        let r: Vec<SpendDescription> = Vec::new();
        assert(spends_view(r@) =~= c@.full_spends());
        return r;
    }
    let anchor: FieldElement = match c.anchor {
        Some(a) => a,
        None => {
            assert(false);
            return Vec::new();
        },
    };
    let ghost full = c@.full_spends();
    let mut r: Vec<SpendDescription> = Vec::new();
    let mut i: usize = 0;
    assert(spends_view(r@) =~= full.take(0));
    while i < c.spends.len()
        invariant
            i <= c.spends@.len(),
            c@.wf(),
            full == c@.full_spends(),
            c.spends@.len() > 0 ==> anchor@ == c@.anchor,
            spends_view(r@) == full.take(i as int),
        decreases c.spends@.len() - i,
    {
        let part = c.spends[i];
        let spend = SpendDescription {
            cv: part.cv,
            anchor,
            nullifier: part.nullifier,
            rk: part.rk,
            zkproof: c.spend_proofs[i],
            spend_auth_sig: c.spend_auth_sigs[i],
        };
        let ghost before = r@;
        r.push(spend);
        assert(spends_view(r@) =~= spends_view(before).push(spend@));
        assert(spend@ == full[i as int]);
        assert(full.take(i + 1) =~= full.take(i as int).push(full[i as int]));
        i = i + 1;
    }
    assert(full.take(c.spends@.len() as int) =~= full);
    r
}

/// Puts the outputs of a v5 bundle together from their pieces.
fn assemble_outputs(c: &V5Components) -> (r: Vec<OutputDescription>)
    requires
        c@.wf(),
    ensures
        outputs_view(r@) == c@.full_outputs(),
{
    let ghost full = c@.full_outputs();
    let mut r: Vec<OutputDescription> = Vec::new();
    let mut i: usize = 0;
    assert(outputs_view(r@) =~= full.take(0));
    while i < c.outputs.len()
        invariant
            i <= c.outputs@.len(),
            c@.wf(),
            full == c@.full_outputs(),
            outputs_view(r@) == full.take(i as int),
        decreases c.outputs@.len() - i,
    {
        let part = c.outputs[i];
        let output = OutputDescription {
            cv: part.cv,
            cmu: part.cmu,
            ephemeral_key: part.ephemeral_key,
            enc_ciphertext: part.enc_ciphertext,
            out_ciphertext: part.out_ciphertext,
            zkproof: c.output_proofs[i],
        };
        let ghost before = r@;
        r.push(output);
        assert(outputs_view(r@) =~= outputs_view(before).push(output@));
        assert(output@ == full[i as int]);
        assert(full.take(i + 1) =~= full.take(i as int).push(full[i as int]));
        i = i + 1;
    }
    assert(full.take(c.outputs@.len() as int) =~= full);
    r
}

/// Reads a Sapling bundle in the v5 layout; the bundle (none when it has neither spends
/// nor outputs) and the number of bytes read.
pub fn read_v5_bundle(input: &[u8]) -> (r: Result<(Option<Bundle>, usize), ReadError>)
    ensures
        match spec_read_v5_bundle(input@) {
            Ok((ob, n)) => r matches Ok((b, c)) && bundle_option_view(b) == ob && c == n,
            Err(e) => r matches Err(e2) && e2@ == e,
        },
{
    let (c, n) = match read_v5_components(input) {
        Ok(x) => x,
        Err(e) => return Err(e),
    };
    proof {
        lemma_v5_parts_canonical(input@);
    }
    match c.binding_sig {
        Some(binding_sig) => {
            let shielded_spends = assemble_spends(&c);
            let shielded_outputs = assemble_outputs(&c);
            let b = Bundle {
                shielded_spends,
                shielded_outputs,
                value_balance: c.value_balance,
                authorization: Authorized { binding_sig },
            };
            Ok((Some(b), n))
        },
        None => Ok((None, n)),
    }
}

/// The v5 encoding of the part of a full spend kept together, as an item encoder.
pub open spec fn spend_v5_full_writer() -> spec_fn(SpendView) -> Seq<u8> {
    |v: SpendView| spend_v5_encoding(v.v5_part())
}

/// The v5 encoding of the part of a full output kept together, as an item encoder.
pub open spec fn output_v5_full_writer() -> spec_fn(OutputView) -> Seq<u8> {
    |v: OutputView| output_v5_encoding(v.v5_part())
}

/// A spend's proof, as an item encoder.
pub open spec fn spend_proof_writer() -> spec_fn(SpendView) -> Seq<u8> {
    |v: SpendView| v.zkproof
}

/// A spend's authorization signature, as an item encoder.
pub open spec fn spend_auth_sig_writer() -> spec_fn(SpendView) -> Seq<u8> {
    |v: SpendView| v.spend_auth_sig
}

/// An output's proof, as an item encoder.
pub open spec fn output_proof_writer() -> spec_fn(OutputView) -> Seq<u8> {
    |v: OutputView| v.zkproof
}

/// The v5 layout of an optional bundle. An absent bundle is two empty vectors. Otherwise:
/// the spend parts and output parts (CompactSize counted); when there is a spend or an
/// output, the value balance; when there is a spend, the first spend's anchor; the spend
/// proofs, the spend authorization signatures and the output proofs; and, when there is
/// a spend or an output, the binding signature.
pub open spec fn v5_bundle_encoding(b: Option<BundleView>) -> Seq<u8> {
    match b {
        None => compact_size_encoding(0) + compact_size_encoding(0),
        Some(b) => vector_encoding(b.spends, spend_v5_full_writer()) + vector_encoding(
            b.outputs,
            output_v5_full_writer(),
        ) + (if b.is_nonempty() {
            amount_encoding(b.value_balance)
        } else {
            Seq::empty()
        }) + (if b.spends.len() > 0 {
            b.spends[0].anchor
        } else {
            Seq::empty()
        }) + array_encoding(b.spends, spend_proof_writer()) + array_encoding(
            b.spends,
            spend_auth_sig_writer(),
        ) + array_encoding(b.outputs, output_proof_writer()) + (if b.is_nonempty() {
            b.binding_sig
        } else {
            Seq::empty()
        }),
    }
}

/// Writes a CompactSize-counted vector of spend parts in the v5 layout; every item written is well formed.
fn write_spend_v5_vector(out: &mut Vec<u8>, items: &Vec<SpendDescription>)
    ensures
        final(out)@ == old(out)@ + vector_encoding(spends_view(items@), spend_v5_full_writer()),
        forall|j: int| 0 <= j < items@.len() ==> #[trigger] spends_view(items@)[j].wf(),
{
    let written = compact_size_write(out, items.len());
    assert(written is Ok);
    let ghost start = out@;
    let ghost vs = spends_view(items@);
    let mut i: usize = 0;
    assert(vs.take(0) =~= Seq::<SpendView>::empty());
    while i < items.len()
        invariant
            i <= items@.len(),
            vs == spends_view(items@),
            out@ == start + array_encoding(vs.take(i as int), spend_v5_full_writer()),
            forall|j: int| 0 <= j < i ==> #[trigger] vs[j].wf(),
        decreases items@.len() - i,
    {
        write_spend_v5_without_witness_data(out, &items[i]);
        proof {
            lemma_array_encoding_step(vs, i as int, spend_v5_full_writer());
        }
        i = i + 1;
    }
    assert(vs.take(items@.len() as int) =~= vs);
}

/// Writes a CompactSize-counted vector of output parts in the v5 layout; every item written is well formed.
fn write_output_v5_vector(out: &mut Vec<u8>, items: &Vec<OutputDescription>)
    ensures
        final(out)@ == old(out)@ + vector_encoding(outputs_view(items@), output_v5_full_writer()),
        forall|j: int| 0 <= j < items@.len() ==> #[trigger] outputs_view(items@)[j].wf(),
{
    let written = compact_size_write(out, items.len());
    assert(written is Ok);
    let ghost start = out@;
    let ghost vs = outputs_view(items@);
    let mut i: usize = 0;
    assert(vs.take(0) =~= Seq::<OutputView>::empty());
    while i < items.len()
        invariant
            i <= items@.len(),
            vs == outputs_view(items@),
            out@ == start + array_encoding(vs.take(i as int), output_v5_full_writer()),
            forall|j: int| 0 <= j < i ==> #[trigger] vs[j].wf(),
        decreases items@.len() - i,
    {
        write_output_v5_without_proof(out, &items[i]);
        proof {
            lemma_array_encoding_step(vs, i as int, output_v5_full_writer());
        }
        i = i + 1;
    }
    assert(vs.take(items@.len() as int) =~= vs);
}

/// Writes the spend proofs, one after another.
fn write_spend_proofs(out: &mut Vec<u8>, items: &Vec<SpendDescription>)
    ensures
        final(out)@ == old(out)@ + array_encoding(spends_view(items@), spend_proof_writer()),
{
    let ghost start = out@;
    let ghost vs = spends_view(items@);
    let mut i: usize = 0;
    assert(vs.take(0) =~= Seq::empty());
    while i < items.len()
        invariant
            i <= items@.len(),
            vs == spends_view(items@),
            start == old(out)@,
            out@ == start + array_encoding(vs.take(i as int), spend_proof_writer()),
        decreases items@.len() - i,
    {
        append_bytes(out, items[i].zkproof.as_slice());
        proof {
            lemma_array_encoding_step(vs, i as int, spend_proof_writer());
        }
        i = i + 1;
    }
    assert(vs.take(items@.len() as int) =~= vs);
}

/// Writes the spend authorization signatures, one after another.
fn write_spend_auth_sigs(out: &mut Vec<u8>, items: &Vec<SpendDescription>)
    ensures
        final(out)@ == old(out)@ + array_encoding(spends_view(items@), spend_auth_sig_writer()),
{
    let ghost start = out@;
    let ghost vs = spends_view(items@);
    let mut i: usize = 0;
    assert(vs.take(0) =~= Seq::empty());
    while i < items.len()
        invariant
            i <= items@.len(),
            vs == spends_view(items@),
            start == old(out)@,
            out@ == start + array_encoding(vs.take(i as int), spend_auth_sig_writer()),
        decreases items@.len() - i,
    {
        append_bytes(out, items[i].spend_auth_sig.as_slice());
        proof {
            lemma_array_encoding_step(vs, i as int, spend_auth_sig_writer());
        }
        i = i + 1;
    }
    assert(vs.take(items@.len() as int) =~= vs);
}

/// Writes the output proofs, one after another.
fn write_output_proofs(out: &mut Vec<u8>, items: &Vec<OutputDescription>)
    ensures
        final(out)@ == old(out)@ + array_encoding(outputs_view(items@), output_proof_writer()),
{
    let ghost start = out@;
    let ghost vs = outputs_view(items@);
    let mut i: usize = 0;
    assert(vs.take(0) =~= Seq::empty());
    while i < items.len()
        invariant
            i <= items@.len(),
            vs == outputs_view(items@),
            start == old(out)@,
            out@ == start + array_encoding(vs.take(i as int), output_proof_writer()),
        decreases items@.len() - i,
    {
        append_bytes(out, items[i].zkproof.as_slice());
        proof {
            lemma_array_encoding_step(vs, i as int, output_proof_writer());
        }
        i = i + 1;
    }
    assert(vs.take(items@.len() as int) =~= vs);
}

/// Writes a Sapling bundle in the v5 layout; an absent bundle is written as two empty
/// vectors.
pub fn write_v5_bundle(out: &mut Vec<u8>, sapling_bundle: Option<&Bundle>) -> (r: Result<
    (),
    WriteError,
>)
    ensures
        r is Ok,
        final(out)@ == old(out)@ + v5_bundle_encoding(bundle_ref_view(sapling_bundle)),
        sapling_bundle matches Some(b) ==> b@.wf(),
{
    match sapling_bundle {
        Some(bundle) => {
            let ghost b = bundle@;
            proof {
                use_type_invariant(&bundle.value_balance);
            }
            write_spend_v5_vector(out, &bundle.shielded_spends);
            write_output_v5_vector(out, &bundle.shielded_outputs);
            let nonempty = !(bundle.shielded_spends.len() == 0 && bundle.shielded_outputs.len()
                == 0);
            if nonempty {
                let vb = bundle.value_balance.to_i64_le_bytes();
                append_bytes(out, vb.as_slice());
            }
            if bundle.shielded_spends.len() > 0 {
                let anchor = bundle.shielded_spends[0].anchor.to_repr();
                append_bytes(out, anchor.as_slice());
            }
            write_spend_proofs(out, &bundle.shielded_spends);
            write_spend_auth_sigs(out, &bundle.shielded_spends);
            write_output_proofs(out, &bundle.shielded_outputs);
            if nonempty {
                append_bytes(out, bundle.authorization.binding_sig.as_slice());
            }
            assert(out@ =~= old(out)@ + v5_bundle_encoding(Some(b)));
            Ok(())
        },
        None => {
            let spends_count = compact_size_write(out, 0);
            let outputs_count = compact_size_write(out, 0);
            assert(spends_count is Ok && outputs_count is Ok);
            assert(out@ =~= old(out)@ + v5_bundle_encoding(None));
            Ok(())
        },
    }
}

/// The pieces that the v5 layout stores for a bundle.
pub open spec fn bundle_v5_parts(b: BundleView) -> V5Parts {
    V5Parts {
        spends: b.spends.map_values(|v: SpendView| v.v5_part()),
        outputs: b.outputs.map_values(|v: OutputView| v.v5_part()),
        value_balance: if b.is_nonempty() {
            b.value_balance
        } else {
            0
        },
        anchor: if b.spends.len() > 0 {
            b.spends[0].anchor
        } else {
            Seq::empty()
        },
        spend_proofs: b.spends.map_values(|v: SpendView| v.zkproof),
        spend_auth_sigs: b.spends.map_values(|v: SpendView| v.spend_auth_sig),
        output_proofs: b.outputs.map_values(|v: OutputView| v.zkproof),
        binding_sig: if b.is_nonempty() {
            b.binding_sig
        } else {
            Seq::empty()
        },
    }
}

/// The v5 layout of a bundle is the layout of its pieces.
proof fn lemma_v5_encoding_is_parts_encoding(b: BundleView)
    ensures
        v5_bundle_encoding(Some(b)) == v5_parts_encoding(bundle_v5_parts(b)),
{
    let p = bundle_v5_parts(b);
    lemma_array_encoding_map(
        b.spends,
        |v: SpendView| v.v5_part(),
        spend_v5_writer(),
        spend_v5_full_writer(),
    );
    lemma_array_encoding_map(
        b.outputs,
        |v: OutputView| v.v5_part(),
        output_v5_writer(),
        output_v5_full_writer(),
    );
    lemma_array_encoding_map(
        b.spends,
        |v: SpendView| v.zkproof,
        bytes_writer(),
        spend_proof_writer(),
    );
    lemma_array_encoding_map(
        b.spends,
        |v: SpendView| v.spend_auth_sig,
        bytes_writer(),
        spend_auth_sig_writer(),
    );
    lemma_array_encoding_map(
        b.outputs,
        |v: OutputView| v.zkproof,
        bytes_writer(),
        output_proof_writer(),
    );
    assert(p.spends.len() == b.spends.len());
    assert(p.outputs.len() == b.outputs.len());
}

/// Every spend part of `vs` reads back from its v5 encoding.
proof fn lemma_spends_v5_read_back(vs: Seq<SpendV5View>)
    requires
        forall|i: int| 0 <= i < vs.len() ==> #[trigger] vs[i].wf(),
    ensures
        reads_back_all(vs, spend_v5_writer(), spend_v5_reader()),
{
    assert forall|i: int, rest: Seq<u8>| 0 <= i < vs.len() implies #[trigger] spend_v5_reader()(
        spend_v5_writer()(vs[i]) + rest,
    ) == Ok::<(SpendV5View, nat), ReadErrorView>((vs[i], spend_v5_writer()(vs[i]).len())) by {
        lemma_spend_v5_round_trip(vs[i], rest);
    }
}

/// Every output part of `vs` reads back from its v5 encoding.
proof fn lemma_outputs_v5_read_back(vs: Seq<OutputV5View>)
    requires
        forall|i: int| 0 <= i < vs.len() ==> #[trigger] vs[i].wf(),
    ensures
        reads_back_all(vs, output_v5_writer(), output_v5_reader()),
{
    assert forall|i: int, rest: Seq<u8>| 0 <= i < vs.len() implies #[trigger] output_v5_reader()(
        output_v5_writer()(vs[i]) + rest,
    ) == Ok::<(OutputV5View, nat), ReadErrorView>((vs[i], output_v5_writer()(vs[i]).len())) by {
        lemma_output_v5_round_trip(vs[i], rest);
    }
}

/// Well-formed pieces of a v5 bundle read back from their layout, whatever follows.
#[verifier::rlimit(60)]
#[verifier::spinoff_prover]
proof fn lemma_v5_parts_round_trip(p: V5Parts, rest: Seq<u8>)
    requires
        p.wf(),
    ensures
        spec_read_v5_parts(v5_parts_encoding(p) + rest) == Ok::<(V5Parts, nat), ReadErrorView>(
            (p, v5_parts_encoding(p).len()),
        ),
{
    let nonempty = p.is_nonempty();
    let e1 = vector_encoding(p.spends, spend_v5_writer());
    let e2 = vector_encoding(p.outputs, output_v5_writer());
    let e3 = if nonempty {
        amount_encoding(p.value_balance)
    } else {
        Seq::<u8>::empty()
    };
    let e4 = if p.spends.len() > 0 {
        p.anchor
    } else {
        Seq::<u8>::empty()
    };
    let e5 = array_encoding(p.spend_proofs, bytes_writer());
    let e6 = array_encoding(p.spend_auth_sigs, bytes_writer());
    let e7 = array_encoding(p.output_proofs, bytes_writer());
    let e8 = if nonempty {
        p.binding_sig
    } else {
        Seq::<u8>::empty()
    };
    let r8 = e8 + rest;
    let r7 = e7 + r8;
    let r6 = e6 + r7;
    let r5 = e5 + r6;
    let r4 = e4 + r5;
    let r3 = e3 + r4;
    let r2 = e2 + r3;
    let s = e1 + r2;
    assert(s =~= v5_parts_encoding(p) + rest);
    lemma_spends_v5_read_back(p.spends);
    lemma_vector_round_trip(p.spends, spend_v5_writer(), spend_v5_reader(), r2);
    assert(s.skip(e1.len() as int) =~= r2);
    lemma_outputs_v5_read_back(p.outputs);
    lemma_vector_round_trip(p.outputs, output_v5_writer(), output_v5_reader(), r3);
    let p2 = e1.len() + e2.len();
    assert(s.skip(p2 as int) =~= r3);
    if nonempty {
        lemma_amount_round_trip(p.value_balance, r4);
    }
    let p3 = p2 + e3.len();
    assert(s.skip(p3 as int) =~= r4);
    if p.spends.len() > 0 {
        assert(r4.take(32) =~= p.anchor);
    }
    let p4 = p3 + e4.len();
    assert(s.skip(p4 as int) =~= r5);
    lemma_bytes_read_back_all(p.spend_proofs, 192);
    lemma_array_round_trip(p.spend_proofs, bytes_writer(), bytes_reader(192), r6);
    let p5 = p4 + e5.len();
    assert(s.skip(p5 as int) =~= r6);
    lemma_bytes_read_back_all(p.spend_auth_sigs, 64);
    lemma_array_round_trip(p.spend_auth_sigs, bytes_writer(), bytes_reader(64), r7);
    let p6 = p5 + e6.len();
    assert(s.skip(p6 as int) =~= r7);
    lemma_bytes_read_back_all(p.output_proofs, 192);
    lemma_array_round_trip(p.output_proofs, bytes_writer(), bytes_reader(192), r8);
    let p7 = p6 + e7.len();
    assert(s.skip(p7 as int) =~= r8);
    if nonempty {
        assert(r8.take(64) =~= p.binding_sig);
    }
}

/// Law: the v5 layout of a well-formed bundle, byte by byte: the CompactSize count of the
/// spends; the part of each spend kept together in 96 bytes, in the bundle's order (value
/// commitment, nullifier, randomized validating key); the CompactSize count of the
/// outputs; the part of each output kept together in 756 bytes, in the bundle's order
/// (value commitment, note commitment, ephemeral key, note ciphertext, outgoing
/// ciphertext); when there is a spend or an output, the value balance in 8 bytes; when
/// there is a spend, the first spend's anchor; each spend's proof in 192 bytes, each
/// spend's authorization signature in 64 bytes and each output's proof in 192 bytes, in
/// the bundle's order; and, when there is a spend or an output, the binding signature.
#[verifier::rlimit(60)]
#[verifier::spinoff_prover]
pub proof fn lemma_v5_bundle_layout(b: BundleView)
    requires
        b.wf(),
        b.fits_compact_size(),
    ensures
        ({
            let e = v5_bundle_encoding(Some(b));
            let ns = b.spends.len() as int;
            let no = b.outputs.len() as int;
            let c1 = compact_size_encoding(b.spends.len());
            let c2 = compact_size_encoding(b.outputs.len());
            let s0: int = c1.len() as int;
            let o0: int = s0 + 96 * ns + c2.len();
            let t0: int = o0 + 756 * no;
            let a0: int = if b.is_nonempty() { t0 + 8 } else { t0 };
            let p0: int = if ns > 0 { a0 + 32 } else { a0 };
            let g0: int = p0 + 192 * ns;
            let q0: int = g0 + 64 * ns;
            let z0: int = q0 + 192 * no;
            &&& e.subrange(0, s0) == c1
            &&& forall|i: int|
                #![trigger b.spends[i]]
                0 <= i < ns ==> e.subrange(s0 + 96 * i, s0 + 96 * i + 96) == b.spends[i].cv
                    + b.spends[i].nullifier + b.spends[i].rk
            &&& e.subrange(s0 + 96 * ns, o0) == c2
            &&& forall|j: int|
                #![trigger b.outputs[j]]
                0 <= j < no ==> e.subrange(o0 + 756 * j, o0 + 756 * j + 756) == b.outputs[j].cv
                    + b.outputs[j].cmu + b.outputs[j].ephemeral_key + b.outputs[j].enc_ciphertext
                    + b.outputs[j].out_ciphertext
            &&& b.is_nonempty() ==> e.subrange(t0, t0 + 8) == amount_encoding(b.value_balance)
            &&& ns > 0 ==> e.subrange(a0, a0 + 32) == b.spends[0].anchor
            &&& forall|i: int|
                #![trigger b.spends[i]]
                0 <= i < ns ==> e.subrange(p0 + 192 * i, p0 + 192 * i + 192) == b.spends[i].zkproof
                    && e.subrange(g0 + 64 * i, g0 + 64 * i + 64) == b.spends[i].spend_auth_sig
            &&& forall|j: int|
                #![trigger b.outputs[j]]
                0 <= j < no ==> e.subrange(q0 + 192 * j, q0 + 192 * j + 192) == b.outputs[j].zkproof
            &&& b.is_nonempty() ==> e.subrange(z0, z0 + 64) == b.binding_sig && e.len() == z0 + 64
            &&& !b.is_nonempty() ==> e.len() == z0
        }),
{
    let e = v5_bundle_encoding(Some(b));
    let c1 = compact_size_encoding(b.spends.len());
    let c2 = compact_size_encoding(b.outputs.len());
    let sa = array_encoding(b.spends, spend_v5_full_writer());
    let oa = array_encoding(b.outputs, output_v5_full_writer());
    let am = if b.is_nonempty() {
        amount_encoding(b.value_balance)
    } else {
        Seq::<u8>::empty()
    };
    let an = if b.spends.len() > 0 {
        b.spends[0].anchor
    } else {
        Seq::<u8>::empty()
    };
    let sp = array_encoding(b.spends, spend_proof_writer());
    let sg = array_encoding(b.spends, spend_auth_sig_writer());
    let op = array_encoding(b.outputs, output_proof_writer());
    let bs = if b.is_nonempty() {
        b.binding_sig
    } else {
        Seq::<u8>::empty()
    };
    lemma_amount_encoding_layout(b.value_balance);
    if b.spends.len() > 0 {
        assert(b.spends[0].wf());
    }
    assert forall|i: int| 0 <= i < b.spends.len() implies (#[trigger] spend_v5_full_writer()(
        b.spends[i],
    )).len() == 96 && spend_proof_writer()(b.spends[i]).len() == 192 && spend_auth_sig_writer()(
        b.spends[i],
    ).len() == 64 by {
        assert(b.spends[i].wf());
        lemma_spend_v5_layout(b.spends[i].v5_part());
    }
    assert forall|j: int| 0 <= j < b.outputs.len() implies (#[trigger] output_v5_full_writer()(
        b.outputs[j],
    )).len() == 756 && output_proof_writer()(b.outputs[j]).len() == 192 by {
        assert(b.outputs[j].wf());
        lemma_output_v5_layout(b.outputs[j].v5_part());
    }
    assert forall|i: int| 0 <= i < b.spends.len() implies (#[trigger] spend_proof_writer()(
        b.spends[i],
    )).len() == 192 by {
        assert(spend_v5_full_writer()(b.spends[i]).len() == 96);
    }
    assert forall|i: int| 0 <= i < b.spends.len() implies (#[trigger] spend_auth_sig_writer()(
        b.spends[i],
    )).len() == 64 by {
        assert(spend_v5_full_writer()(b.spends[i]).len() == 96);
    }
    assert forall|j: int| 0 <= j < b.outputs.len() implies (#[trigger] output_proof_writer()(
        b.outputs[j],
    )).len() == 192 by {
        assert(output_v5_full_writer()(b.outputs[j]).len() == 756);
    }
    lemma_array_encoding_uniform(b.spends, spend_v5_full_writer(), 96);
    lemma_array_encoding_uniform(b.outputs, output_v5_full_writer(), 756);
    lemma_array_encoding_uniform(b.spends, spend_proof_writer(), 192);
    lemma_array_encoding_uniform(b.spends, spend_auth_sig_writer(), 64);
    lemma_array_encoding_uniform(b.outputs, output_proof_writer(), 192);
    let x1 = c1 + sa + c2;
    let x2 = x1 + oa + am + an;
    let x3 = x2 + sp;
    let x4 = x3 + sg;
    let x5 = x4 + op;
    assert(e =~= x5 + bs);
    assert(e =~= c1 + sa + (c2 + oa + am + an + sp + sg + op + bs));
    assert(e =~= x1 + oa + (am + an + sp + sg + op + bs));
    assert(e =~= x2 + sp + (sg + op + bs));
    assert(e =~= x3 + sg + (op + bs));
    assert(e =~= x4 + op + bs);
    assert(e.subrange(0, c1.len() as int) =~= c1);
    assert(e.subrange((c1.len() + sa.len()) as int, x1.len() as int) =~= c2);
    if b.is_nonempty() {
        assert(e.subrange((x1.len() + oa.len()) as int, (x1.len() + oa.len() + 8) as int) =~= am);
        assert(e.subrange(x5.len() as int, (x5.len() + 64) as int) =~= bs);
    }
    if b.spends.len() > 0 {
        assert(e.subrange(x2.len() - 32, x2.len() as int) =~= an);
    }
    assert forall|i: int|
        #![trigger b.spends[i]]
        0 <= i < b.spends.len() implies e.subrange(c1.len() + 96 * i, c1.len() + 96 * i + 96)
        == b.spends[i].cv + b.spends[i].nullifier + b.spends[i].rk && e.subrange(
        x2.len() + 192 * i,
        x2.len() + 192 * i + 192,
    ) == b.spends[i].zkproof && e.subrange(x3.len() + 64 * i, x3.len() + 64 * i + 64)
        == b.spends[i].spend_auth_sig by {
        assert(sa.subrange(96 * i, 96 * i + 96) === spend_v5_full_writer()(b.spends[i]));
        lemma_subrange_within(c1, sa, c2 + oa + am + an + sp + sg + op + bs, 96 * i, 96 * i + 96);
        assert(sp.subrange(192 * i, 192 * i + 192) === spend_proof_writer()(b.spends[i]));
        lemma_subrange_within(x2, sp, sg + op + bs, 192 * i, 192 * i + 192);
        assert(sg.subrange(64 * i, 64 * i + 64) === spend_auth_sig_writer()(b.spends[i]));
        lemma_subrange_within(x3, sg, op + bs, 64 * i, 64 * i + 64);
    }
    assert forall|j: int|
        #![trigger b.outputs[j]]
        0 <= j < b.outputs.len() implies e.subrange(x1.len() + 756 * j, x1.len() + 756 * j + 756)
        == b.outputs[j].cv + b.outputs[j].cmu + b.outputs[j].ephemeral_key
        + b.outputs[j].enc_ciphertext + b.outputs[j].out_ciphertext && e.subrange(
        x4.len() + 192 * j,
        x4.len() + 192 * j + 192,
    ) == b.outputs[j].zkproof by {
        assert(oa.subrange(756 * j, 756 * j + 756) === output_v5_full_writer()(b.outputs[j]));
        lemma_subrange_within(x1, oa, am + an + sp + sg + op + bs, 756 * j, 756 * j + 756);
        assert(op.subrange(192 * j, 192 * j + 192) === output_proof_writer()(b.outputs[j]));
        lemma_subrange_within(x4, op, bs, 192 * j, 192 * j + 192);
    }
}

/// Law: a well-formed bundle with a spend or an output, whose spends share one anchor,
/// reads back from its v5 layout, whatever follows.
pub proof fn lemma_v5_bundle_round_trip(b: BundleView, rest: Seq<u8>)
    requires
        b.wf(),
        b.fits_compact_size(),
        b.is_nonempty(),
        b.shares_anchor(),
    ensures
        spec_read_v5_bundle(v5_bundle_encoding(Some(b)) + rest) == Ok::<
            (Option<BundleView>, nat),
            ReadErrorView,
        >((Some(b), v5_bundle_encoding(Some(b)).len())),
{
    let p = bundle_v5_parts(b);
    lemma_v5_encoding_is_parts_encoding(b);
    assert forall|i: int| 0 <= i < p.spends.len() implies #[trigger] p.spends[i].wf() by {
        assert(b.spends[i].wf());
    }
    assert forall|i: int| 0 <= i < p.outputs.len() implies #[trigger] p.outputs[i].wf() by {
        assert(b.outputs[i].wf());
    }
    assert forall|i: int| 0 <= i < p.spend_proofs.len() implies #[trigger] p.spend_proofs[i].len()
        == 192 by {
        assert(b.spends[i].wf());
    }
    assert forall|i: int| 0 <= i < p.spend_auth_sigs.len() implies #[trigger] p.spend_auth_sigs[i].len()
        == 64 by {
        assert(b.spends[i].wf());
    }
    assert forall|i: int| 0 <= i < p.output_proofs.len() implies #[trigger] p.output_proofs[i].len()
        == 192 by {
        assert(b.outputs[i].wf());
    }
    if b.spends.len() > 0 {
        assert(b.spends[0].wf());
    }
    assert(p.wf());
    lemma_v5_parts_round_trip(p, rest);
    assert(p.full_spends() =~= b.spends) by {
        assert forall|i: int| 0 <= i < b.spends.len() implies p.full_spends()[i] == b.spends[i] by {
            assert(b.spends[i].anchor == b.spends[0].anchor);
        }
    }
    assert(p.full_outputs() =~= b.outputs);
}

/// Law: an absent bundle reads back as absent from its v5 layout (two empty vectors, two
/// bytes), whatever follows.
pub proof fn lemma_v5_bundle_absent_round_trip(rest: Seq<u8>)
    ensures
        v5_bundle_encoding(None).len() == 2,
        spec_read_v5_bundle(v5_bundle_encoding(None) + rest) == Ok::<
            (Option<BundleView>, nat),
            ReadErrorView,
        >((None, 2)),
{
    let p = V5Parts {
        spends: Seq::empty(),
        outputs: Seq::empty(),
        value_balance: 0,
        anchor: Seq::empty(),
        spend_proofs: Seq::empty(),
        spend_auth_sigs: Seq::empty(),
        output_proofs: Seq::empty(),
        binding_sig: Seq::empty(),
    };
    assert(array_encoding(p.spends, spend_v5_writer()) =~= Seq::<u8>::empty());
    assert(array_encoding(p.outputs, output_v5_writer()) =~= Seq::<u8>::empty());
    assert(array_encoding(p.spend_proofs, bytes_writer()) =~= Seq::<u8>::empty());
    assert(array_encoding(p.spend_auth_sigs, bytes_writer()) =~= Seq::<u8>::empty());
    assert(array_encoding(p.output_proofs, bytes_writer()) =~= Seq::<u8>::empty());
    assert(v5_parts_encoding(p) =~= v5_bundle_encoding(None));
    lemma_v5_parts_round_trip(p, rest);
}

/// Law: a bundle with neither spends nor outputs has the v5 layout of an absent bundle
/// (so it reads back as absent).
pub proof fn lemma_v5_empty_bundle_is_absent(b: BundleView)
    requires
        !b.is_nonempty(),
    ensures
        v5_bundle_encoding(Some(b)) == v5_bundle_encoding(None),
{
    assert(array_encoding(b.spends, spend_v5_full_writer()) =~= Seq::<u8>::empty());
    assert(array_encoding(b.outputs, output_v5_full_writer()) =~= Seq::<u8>::empty());
    assert(array_encoding(b.spends, spend_proof_writer()) =~= Seq::<u8>::empty());
    assert(array_encoding(b.spends, spend_auth_sig_writer()) =~= Seq::<u8>::empty());
    assert(array_encoding(b.outputs, output_proof_writer()) =~= Seq::<u8>::empty());
    assert(v5_bundle_encoding(Some(b)) =~= v5_bundle_encoding(None));
}

/// Law: a bundle read in the v5 layout comes in the order of the bytes it was read from:
/// the part of its `i`-th spend kept together from the `i`-th block of 96 bytes after the
/// spend count, the part of its `j`-th output kept together from the `j`-th block of 756
/// bytes after the output count, and its proofs and signatures from their blocks in the
/// same order, each field from its place in its block.
#[verifier::spinoff_prover]
pub proof fn lemma_v5_bundle_read_order(s: Seq<u8>)
    ensures
        spec_read_v5_bundle(s) matches Ok((Some(b), n)) ==> {
            let ns = b.spends.len() as int;
            let no = b.outputs.len() as int;
            let c1 = compact_size_encoding(b.spends.len());
            let c2 = compact_size_encoding(b.outputs.len());
            let s0: int = c1.len() as int;
            let o0: int = s0 + 96 * ns + c2.len();
            let t0: int = o0 + 756 * no;
            let p0: int = if ns > 0 { t0 + 40 } else { t0 + 8 };
            let g0: int = p0 + 192 * ns;
            let q0: int = g0 + 64 * ns;
            &&& n == q0 + 192 * no + 64
            &&& s.subrange(t0, t0 + 8) == amount_encoding(b.value_balance)
            &&& forall|i: int|
                #![trigger b.spends[i]]
                0 <= i < ns ==> s.subrange(s0 + 96 * i, s0 + 96 * i + 96) == b.spends[i].cv
                    + b.spends[i].nullifier + b.spends[i].rk && s.subrange(
                    p0 + 192 * i,
                    p0 + 192 * i + 192,
                ) == b.spends[i].zkproof && s.subrange(g0 + 64 * i, g0 + 64 * i + 64)
                    == b.spends[i].spend_auth_sig
            &&& forall|j: int|
                #![trigger b.outputs[j]]
                0 <= j < no ==> s.subrange(o0 + 756 * j, o0 + 756 * j + 756) == b.outputs[j].cv
                    + b.outputs[j].cmu + b.outputs[j].ephemeral_key + b.outputs[j].enc_ciphertext
                    + b.outputs[j].out_ciphertext && s.subrange(q0 + 192 * j, q0 + 192 * j + 192)
                    == b.outputs[j].zkproof
        },
{
    lemma_v5_bundle_canonical(s);
    if let Ok((Some(b), n)) = spec_read_v5_bundle(s) {
        lemma_v5_bundle_positions(s, b, n);
    }
}

/// Where each piece of a bundle stands in bytes whose prefix is its v5 layout.
#[verifier::spinoff_prover]
proof fn lemma_v5_bundle_positions(s: Seq<u8>, b: BundleView, n: nat)
    requires
        n <= s.len(),
        v5_bundle_encoding(Some(b)) == s.take(n as int),
        b.wf(),
        b.fits_compact_size(),
        b.is_nonempty(),
    ensures
        ({
            let ns = b.spends.len() as int;
            let no = b.outputs.len() as int;
            let c1 = compact_size_encoding(b.spends.len());
            let c2 = compact_size_encoding(b.outputs.len());
            let s0: int = c1.len() as int;
            let o0: int = s0 + 96 * ns + c2.len();
            let t0: int = o0 + 756 * no;
            let p0: int = if ns > 0 { t0 + 40 } else { t0 + 8 };
            let g0: int = p0 + 192 * ns;
            let q0: int = g0 + 64 * ns;
            &&& n == q0 + 192 * no + 64
            &&& s.subrange(t0, t0 + 8) == amount_encoding(b.value_balance)
            &&& forall|i: int|
                #![trigger b.spends[i]]
                0 <= i < ns ==> s.subrange(s0 + 96 * i, s0 + 96 * i + 96) == b.spends[i].cv
                    + b.spends[i].nullifier + b.spends[i].rk && s.subrange(
                    p0 + 192 * i,
                    p0 + 192 * i + 192,
                ) == b.spends[i].zkproof && s.subrange(g0 + 64 * i, g0 + 64 * i + 64)
                    == b.spends[i].spend_auth_sig
            &&& forall|j: int|
                #![trigger b.outputs[j]]
                0 <= j < no ==> s.subrange(o0 + 756 * j, o0 + 756 * j + 756) == b.outputs[j].cv
                    + b.outputs[j].cmu + b.outputs[j].ephemeral_key + b.outputs[j].enc_ciphertext
                    + b.outputs[j].out_ciphertext && s.subrange(q0 + 192 * j, q0 + 192 * j + 192)
                    == b.outputs[j].zkproof
        }),
{
    lemma_v5_bundle_layout(b);
    let e = v5_bundle_encoding(Some(b));
    assert(e == s.take(n as int));
    let ns = b.spends.len() as int;
    let no = b.outputs.len() as int;
    let c1 = compact_size_encoding(b.spends.len());
    let c2 = compact_size_encoding(b.outputs.len());
    let s0: int = c1.len() as int;
    let o0: int = s0 + 96 * ns + c2.len();
    let t0: int = o0 + 756 * no;
    let p0: int = if ns > 0 { t0 + 40 } else { t0 + 8 };
    let g0: int = p0 + 192 * ns;
    let q0: int = g0 + 64 * ns;
    assert(s.subrange(t0, t0 + 8) =~= e.subrange(t0, t0 + 8));
    assert forall|i: int|
        #![trigger b.spends[i]]
        0 <= i < ns implies s.subrange(s0 + 96 * i, s0 + 96 * i + 96) == b.spends[i].cv
        + b.spends[i].nullifier + b.spends[i].rk && s.subrange(p0 + 192 * i, p0 + 192 * i + 192)
        == b.spends[i].zkproof && s.subrange(g0 + 64 * i, g0 + 64 * i + 64)
        == b.spends[i].spend_auth_sig by {
        assert(96 * i + 96 <= 96 * ns && 192 * i + 192 <= 192 * ns && 64 * i + 64 <= 64 * ns)
            by (nonlinear_arith)
            requires
                0 <= i < ns,
        ;
        assert(s.subrange(s0 + 96 * i, s0 + 96 * i + 96) =~= e.subrange(
            s0 + 96 * i,
            s0 + 96 * i + 96,
        ));
        assert(s.subrange(p0 + 192 * i, p0 + 192 * i + 192) =~= e.subrange(
            p0 + 192 * i,
            p0 + 192 * i + 192,
        ));
        assert(s.subrange(g0 + 64 * i, g0 + 64 * i + 64) =~= e.subrange(
            g0 + 64 * i,
            g0 + 64 * i + 64,
        ));
    }
    assert forall|j: int|
        #![trigger b.outputs[j]]
        0 <= j < no implies s.subrange(o0 + 756 * j, o0 + 756 * j + 756) == b.outputs[j].cv
        + b.outputs[j].cmu + b.outputs[j].ephemeral_key + b.outputs[j].enc_ciphertext
        + b.outputs[j].out_ciphertext && s.subrange(q0 + 192 * j, q0 + 192 * j + 192)
        == b.outputs[j].zkproof by {
        assert(756 * j + 756 <= 756 * no && 192 * j + 192 <= 192 * no) by (nonlinear_arith)
            requires
                0 <= j < no,
        ;
        assert(s.subrange(o0 + 756 * j, o0 + 756 * j + 756) =~= e.subrange(
            o0 + 756 * j,
            o0 + 756 * j + 756,
        ));
        assert(s.subrange(q0 + 192 * j, q0 + 192 * j + 192) =~= e.subrange(
            q0 + 192 * j,
            q0 + 192 * j + 192,
        ));
    }
}

/// Law: what is read in the v5 layout is written back as exactly the bytes it was read
/// from; a bundle read is well formed, has a spend or an output, and its spends share one
/// anchor.
pub proof fn lemma_v5_bundle_canonical(s: Seq<u8>)
    ensures
        spec_read_v5_bundle(s) matches Ok((ob, n)) ==> {
            &&& n <= s.len()
            &&& v5_bundle_encoding(ob) == s.take(n as int)
            &&& ob matches Some(b) ==> b.wf() && b.fits_compact_size() && b.is_nonempty()
                && b.shares_anchor()
        },
{
    lemma_v5_parts_canonical(s);
    if let Ok((p, n)) = spec_read_v5_parts(s) {
        if p.is_nonempty() {
            let b = BundleView {
                spends: p.full_spends(),
                outputs: p.full_outputs(),
                value_balance: p.value_balance,
                binding_sig: p.binding_sig,
            };
            let q = bundle_v5_parts(b);
            assert(q.spends =~= p.spends) by {
                assert forall|i: int| 0 <= i < p.spends.len() implies q.spends[i] == p.spends[i] by {}
            }
            assert(q.outputs =~= p.outputs) by {
                assert forall|i: int| 0 <= i < p.outputs.len() implies q.outputs[i] == p.outputs[i] by {}
            }
            assert(q.spend_proofs =~= p.spend_proofs);
            assert(q.spend_auth_sigs =~= p.spend_auth_sigs);
            assert(q.output_proofs =~= p.output_proofs);
            assert(q == p);
            lemma_v5_encoding_is_parts_encoding(b);
            assert forall|i: int| 0 <= i < b.spends.len() implies #[trigger] b.spends[i].wf() by {
                assert(p.spends[i].wf());
                assert(p.spend_proofs[i].len() == 192);
                assert(p.spend_auth_sigs[i].len() == 64);
            }
            assert forall|i: int| 0 <= i < b.outputs.len() implies #[trigger] b.outputs[i].wf() by {
                assert(p.outputs[i].wf());
                assert(p.output_proofs[i].len() == 192);
            }
        } else {
            assert(array_encoding(p.spends, spend_v5_writer()) =~= Seq::<u8>::empty());
            assert(array_encoding(p.outputs, output_v5_writer()) =~= Seq::<u8>::empty());
            assert(array_encoding(p.spend_proofs, bytes_writer()) =~= Seq::<u8>::empty());
            assert(array_encoding(p.spend_auth_sigs, bytes_writer()) =~= Seq::<u8>::empty());
            assert(array_encoding(p.output_proofs, bytes_writer()) =~= Seq::<u8>::empty());
            assert(v5_parts_encoding(p) =~= v5_bundle_encoding(None));
        }
    }
}

} // verus!

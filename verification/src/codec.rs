//! The binary wire format of the execution payload: fixed-size fields in
//! declaration order, each variable-length field reached through a 4-byte
//! little-endian offset, lists of variable-length elements carrying their own
//! offset table. Decoding rejects truncated, over-length and misaligned
//! input.

use vstd::prelude::*;

use crate::error::PayloadError;
use crate::fork::ForkName;
use crate::payload::{
    model_common, DepositReceipt, DepositReceiptModel, ExecutionPayload, ExecutionPayloadCapella,
    ExecutionPayloadDeneb, ExecutionPayloadEip6110, ExecutionPayloadMerge, PayloadBounds,
    PayloadCommon, PayloadCommonModel, PayloadModel, Withdrawal, WithdrawalModel,
};

verus! {

/// Little-endian bytes of a 64-bit integer.
pub open spec fn u64_le(x: u64) -> Seq<u8> {
    seq![
        (x & 0xff) as u8,
        ((x >> 8) & 0xff) as u8,
        ((x >> 16) & 0xff) as u8,
        ((x >> 24) & 0xff) as u8,
        ((x >> 32) & 0xff) as u8,
        ((x >> 40) & 0xff) as u8,
        ((x >> 48) & 0xff) as u8,
        ((x >> 56) & 0xff) as u8,
    ]
}

/// The 64-bit integer read from 8 little-endian bytes.
pub open spec fn u64_from_le(s: Seq<u8>) -> u64
    recommends
        s.len() == 8,
{
    ((s[0] as u64) | ((s[1] as u64) << 8) | ((s[2] as u64) << 16) | ((s[3] as u64) << 24) | (
    (s[4] as u64) << 32) | ((s[5] as u64) << 40) | ((s[6] as u64) << 48) | ((s[7] as u64) << 56))
}

pub proof fn lemma_u64_le_round_trip(x: u64)
    ensures
        u64_le(x).len() == 8,
        u64_from_le(u64_le(x)) == x,
{
    let s = u64_le(x);
    assert(s.len() == 8);
    assert((((x & 0xff) as u8 as u64) | ((((x >> 8) & 0xff) as u8 as u64) << 8) | ((((x >> 16)
        & 0xff) as u8 as u64) << 16) | ((((x >> 24) & 0xff) as u8 as u64) << 24) | ((((x >> 32)
        & 0xff) as u8 as u64) << 32) | ((((x >> 40) & 0xff) as u8 as u64) << 40) | ((((x >> 48)
        & 0xff) as u8 as u64) << 48) | ((((x >> 56) & 0xff) as u8 as u64) << 56)) == x)
        by (bit_vector);
}

/// Little-endian bytes of a 32-bit offset, given as a mathematical integer.
pub open spec fn u32_le(x: u32) -> Seq<u8> {
    seq![(x & 0xff) as u8, ((x >> 8) & 0xff) as u8, ((x >> 16) & 0xff) as u8, ((x >> 24)
        & 0xff) as u8]
}

/// The 32-bit integer read from 4 little-endian bytes.
pub open spec fn u32_from_le(s: Seq<u8>) -> u32
    recommends
        s.len() == 4,
{
    ((s[0] as u32) | ((s[1] as u32) << 8) | ((s[2] as u32) << 16) | ((s[3] as u32) << 24))
}

pub proof fn lemma_u32_le_round_trip(x: u32)
    ensures
        u32_le(x).len() == 4,
        u32_from_le(u32_le(x)) == x,
{
    let s = u32_le(x);
    assert(s.len() == 4);
    assert((((x & 0xff) as u8 as u32) | ((((x >> 8) & 0xff) as u8 as u32) << 8) | ((((x >> 16)
        & 0xff) as u8 as u32) << 16) | ((((x >> 24) & 0xff) as u8 as u32) << 24)) == x)
        by (bit_vector);
}

/// Reads a 64-bit little-endian integer at `pos`.
pub fn read_u64_le(bytes: &[u8], pos: usize) -> (r: u64)
    requires
        pos + 8 <= bytes@.len(),
    ensures
        r == u64_from_le(bytes@.subrange(pos as int, pos + 8)),
{
    let r = (bytes[pos] as u64) | ((bytes[pos + 1] as u64) << 8) | ((bytes[pos + 2] as u64) << 16)
        | ((bytes[pos + 3] as u64) << 24) | ((bytes[pos + 4] as u64) << 32) | ((bytes[pos
        + 5] as u64) << 40) | ((bytes[pos + 6] as u64) << 48) | ((bytes[pos + 7] as u64) << 56);
    proof {
        let s = bytes@.subrange(pos as int, pos + 8);
        assert(s[0] == bytes@[pos as int]);
        assert(s[1] == bytes@[pos + 1]);
        assert(s[2] == bytes@[pos + 2]);
        assert(s[3] == bytes@[pos + 3]);
        assert(s[4] == bytes@[pos + 4]);
        assert(s[5] == bytes@[pos + 5]);
        assert(s[6] == bytes@[pos + 6]);
        assert(s[7] == bytes@[pos + 7]);
    }
    r
}

/// Reads a 32-bit little-endian offset at `pos`.
pub fn read_u32_le(bytes: &[u8], pos: usize) -> (r: u32)
    requires
        pos + 4 <= bytes@.len(),
    ensures
        r == u32_from_le(bytes@.subrange(pos as int, pos + 4)),
{
    let r = (bytes[pos] as u32) | ((bytes[pos + 1] as u32) << 8) | ((bytes[pos + 2] as u32) << 16)
        | ((bytes[pos + 3] as u32) << 24);
    proof {
        let s = bytes@.subrange(pos as int, pos + 4);
        assert(s[0] == bytes@[pos as int]);
        assert(s[1] == bytes@[pos + 1]);
        assert(s[2] == bytes@[pos + 2]);
        assert(s[3] == bytes@[pos + 3]);
    }
    r
}

/// Appends the little-endian bytes of a 64-bit integer.
pub fn append_u64_le(out: &mut Vec<u8>, x: u64)
    ensures
        final(out)@ == old(out)@ + u64_le(x),
{
    out.push((x & 0xff) as u8);
    out.push(((x >> 8) & 0xff) as u8);
    out.push(((x >> 16) & 0xff) as u8);
    out.push(((x >> 24) & 0xff) as u8);
    out.push(((x >> 32) & 0xff) as u8);
    out.push(((x >> 40) & 0xff) as u8);
    out.push(((x >> 48) & 0xff) as u8);
    out.push(((x >> 56) & 0xff) as u8);
    assert(out@ =~= old(out)@ + u64_le(x));
}

/// Appends the little-endian bytes of a 32-bit offset.
pub fn append_u32_le(out: &mut Vec<u8>, x: u32)
    ensures
        final(out)@ == old(out)@ + u32_le(x),
{
    out.push((x & 0xff) as u8);
    out.push(((x >> 8) & 0xff) as u8);
    out.push(((x >> 16) & 0xff) as u8);
    out.push(((x >> 24) & 0xff) as u8);
    assert(out@ =~= old(out)@ + u32_le(x));
}

/// Appends a copy of `src`.
pub fn append_bytes(out: &mut Vec<u8>, src: &Vec<u8>)
    ensures
        final(out)@ == old(out)@ + src@,
{
    let n = src.len();
    let mut i: usize = 0;
    while i < n
        invariant
            n == src@.len(),
            0 <= i <= n,
            out@ == old(out)@ + src@.subrange(0, i as int),
        decreases n - i,
    {
        out.push(src[i]);
        assert(out@ =~= old(out)@ + src@.subrange(0, i + 1));
        i = i + 1;
    }
    assert(out@ =~= old(out)@ + src@);
}

/// Bytes of the first `i` transactions, concatenated in order.
pub open spec fn tx_payload_len(txs: Seq<Seq<u8>>, i: int) -> int
    decreases i,
{
    if i <= 0 {
        0
    } else {
        tx_payload_len(txs, i - 1) + txs[i - 1].len()
    }
}

pub proof fn lemma_tx_payload_len_nonneg(txs: Seq<Seq<u8>>, i: int)
    ensures
        0 <= tx_payload_len(txs, i),
    decreases i,
{
    if i > 0 {
        lemma_tx_payload_len_nonneg(txs, i - 1);
    }
}

pub proof fn lemma_tx_payload_len_mono(txs: Seq<Seq<u8>>, i: int, j: int)
    requires
        0 <= i <= j,
    ensures
        tx_payload_len(txs, i) <= tx_payload_len(txs, j),
        0 <= tx_payload_len(txs, i),
    decreases j - i,
{
    lemma_tx_payload_len_nonneg(txs, i);
    if i < j {
        lemma_tx_payload_len_mono(txs, i, j - 1);
    }
}

/// Offset table of the first `i` transactions: each element's offset is the
/// table's full size plus the bytes of the elements before it.
pub open spec fn enc_tx_offsets(txs: Seq<Seq<u8>>, i: int) -> Seq<u8>
    decreases i,
{
    if i <= 0 {
        Seq::empty()
    } else {
        enc_tx_offsets(txs, i - 1) + u32_le(
            ((4 * txs.len() + tx_payload_len(txs, i - 1)) as u32),
        )
    }
}

/// Concatenated bytes of the first `i` transactions.
pub open spec fn enc_tx_payloads(txs: Seq<Seq<u8>>, i: int) -> Seq<u8>
    decreases i,
{
    if i <= 0 {
        Seq::empty()
    } else {
        enc_tx_payloads(txs, i - 1) + txs[i - 1]
    }
}

/// Wire form of a transaction list: offset table, then element bytes.
pub open spec fn enc_txs(txs: Seq<Seq<u8>>) -> Seq<u8> {
    enc_tx_offsets(txs, txs.len() as int) + enc_tx_payloads(txs, txs.len() as int)
}

pub proof fn lemma_enc_tx_offsets_len(txs: Seq<Seq<u8>>, i: int)
    requires
        0 <= i,
    ensures
        enc_tx_offsets(txs, i).len() == 4 * i,
    decreases i,
{
    if i > 0 {
        lemma_enc_tx_offsets_len(txs, i - 1);
    }
}

pub proof fn lemma_enc_tx_payloads_len(txs: Seq<Seq<u8>>, i: int)
    requires
        0 <= i,
    ensures
        enc_tx_payloads(txs, i).len() == tx_payload_len(txs, i),
    decreases i,
{
    if i > 0 {
        lemma_enc_tx_payloads_len(txs, i - 1);
        lemma_tx_payload_len_mono(txs, 0, i - 1);
    }
}

/// The offset table holds, at entry `j`, the offset of transaction `j`.
pub proof fn lemma_enc_tx_offsets_index(txs: Seq<Seq<u8>>, i: int, j: int)
    requires
        0 <= j < i,
    ensures
        enc_tx_offsets(txs, i).subrange(4 * j, 4 * j + 4) == u32_le(
            ((4 * txs.len() + tx_payload_len(txs, j)) as u32),
        ),
    decreases i,
{
    lemma_enc_tx_offsets_len(txs, i);
    lemma_enc_tx_offsets_len(txs, i - 1);
    if j == i - 1 {
        assert(enc_tx_offsets(txs, i).subrange(4 * j, 4 * j + 4) =~= u32_le(
            ((4 * txs.len() + tx_payload_len(txs, j)) as u32),
        ));
    } else {
        lemma_enc_tx_offsets_index(txs, i - 1, j);
        assert(enc_tx_offsets(txs, i).subrange(4 * j, 4 * j + 4) =~= enc_tx_offsets(
            txs,
            i - 1,
        ).subrange(4 * j, 4 * j + 4));
    }
}

/// The payload section holds, between consecutive offsets, transaction `j`.
pub proof fn lemma_enc_tx_payloads_index(txs: Seq<Seq<u8>>, i: int, j: int)
    requires
        0 <= j < i,
    ensures
        enc_tx_payloads(txs, i).subrange(tx_payload_len(txs, j), tx_payload_len(txs, j + 1))
            == txs[j],
    decreases i,
{
    lemma_enc_tx_payloads_len(txs, i);
    lemma_enc_tx_payloads_len(txs, i - 1);
    lemma_tx_payload_len_mono(txs, 0, j);
    if j == i - 1 {
        assert(enc_tx_payloads(txs, i).subrange(tx_payload_len(txs, j), tx_payload_len(txs, j + 1))
            =~= txs[j]);
    } else {
        lemma_enc_tx_payloads_index(txs, i - 1, j);
        lemma_tx_payload_len_mono(txs, j + 1, i - 1);
        assert(enc_tx_payloads(txs, i).subrange(tx_payload_len(txs, j), tx_payload_len(txs, j + 1))
            =~= enc_tx_payloads(txs, i - 1).subrange(
            tx_payload_len(txs, j),
            tx_payload_len(txs, j + 1),
        ));
    }
}

/// A transaction list within its bounds: at most `max_count` elements, each
/// of at most `max_len` bytes.
pub open spec fn txs_valid(txs: Seq<Seq<u8>>, max_count: int, max_len: int) -> bool {
    txs.len() <= max_count && forall|i: int|
        0 <= i < txs.len() ==> #[trigger] txs[i].len() <= max_len
}

/// Decodes a transaction list: the first offset fixes the element count, the
/// offsets must be aligned, in range and non-decreasing, every byte must be
/// covered, and every element must be within bounds.
pub open spec fn dec_txs(bytes: Seq<u8>, max_count: int, max_len: int) -> Option<Seq<Seq<u8>>> {
    if bytes.len() == 0 {
        Some(Seq::empty())
    } else if bytes.len() < 4 {
        None
    } else {
        let first = u32_from_le(bytes.subrange(0, 4)) as int;
        if first % 4 != 0 || first == 0 {
            None
        } else {
            let n = first / 4;
            if n > max_count || first > bytes.len() {
                None
            } else {
                dec_txs_from(bytes, n, 0, first, max_len)
            }
        }
    }
}

pub open spec fn dec_txs_from(
    bytes: Seq<u8>,
    n: int,
    i: int,
    prev: int,
    max_len: int,
) -> Option<Seq<Seq<u8>>>
    decreases n - i,
{
    if i >= n {
        if prev == bytes.len() {
            Some(Seq::empty())
        } else {
            None
        }
    } else {
        let next = if i == n - 1 {
            bytes.len() as int
        } else {
            u32_from_le(bytes.subrange(4 * (i + 1), 4 * (i + 1) + 4)) as int
        };
        if next < prev || next > bytes.len() {
            None
        } else if next - prev > max_len {
            None
        } else {
            match dec_txs_from(bytes, n, i + 1, next, max_len) {
                Some(rest) => Some(seq![bytes.subrange(prev, next)] + rest),
                None => None,
            }
        }
    }
}

proof fn lemma_dec_txs_from_round_trip(txs: Seq<Seq<u8>>, i: int, max_len: int)
    requires
        0 <= i <= txs.len(),
        forall|k: int| 0 <= k < txs.len() ==> #[trigger] txs[k].len() <= max_len,
        enc_txs(txs).len() < 0x1_0000_0000,
    ensures
        dec_txs_from(
            enc_txs(txs),
            txs.len() as int,
            i,
            4 * txs.len() + tx_payload_len(txs, i),
            max_len,
        ) == Some(txs.skip(i)),
    decreases txs.len() - i,
{
    let n = txs.len() as int;
    let bytes = enc_txs(txs);
    let offs = enc_tx_offsets(txs, n);
    let pays = enc_tx_payloads(txs, n);
    lemma_enc_tx_offsets_len(txs, n);
    lemma_enc_tx_payloads_len(txs, n);
    lemma_tx_payload_len_mono(txs, i, n);
    if i >= n {
        assert(4 * n + tx_payload_len(txs, n) == bytes.len());
        assert(txs.skip(i) =~= Seq::<Seq<u8>>::empty());
    } else {
        let prev = 4 * n + tx_payload_len(txs, i);
        lemma_tx_payload_len_mono(txs, 0, i);
        lemma_tx_payload_len_mono(txs, i, i + 1);
        lemma_tx_payload_len_mono(txs, i + 1, n);
        let next_expected = 4 * n + tx_payload_len(txs, i + 1);
        if i == n - 1 {
            assert(next_expected == bytes.len());
        } else {
            assert(4 * (i + 1) + 4 <= 4 * n);
            assert(bytes.subrange(4 * (i + 1), 4 * (i + 1) + 4) =~= offs.subrange(
                4 * (i + 1),
                4 * (i + 1) + 4,
            ));
            lemma_enc_tx_offsets_index(txs, n, i + 1);
            lemma_u32_le_round_trip(((4 * n + tx_payload_len(txs, i + 1)) as u32));
            assert(u32_from_le(bytes.subrange(4 * (i + 1), 4 * (i + 1) + 4)) as int
                == next_expected);
        }
        assert(bytes.subrange(prev, next_expected) =~= pays.subrange(
            tx_payload_len(txs, i),
            tx_payload_len(txs, i + 1),
        ));
        lemma_enc_tx_payloads_index(txs, n, i);
        assert(bytes.subrange(prev, next_expected) == txs[i]);
        assert(next_expected - prev == txs[i].len());
        lemma_dec_txs_from_round_trip(txs, i + 1, max_len);
        assert(seq![txs[i]] + txs.skip(i + 1) =~= txs.skip(i));
    }
}

/// Wire form of one withdrawal: 44 bytes, fields in declaration order.
pub open spec fn enc_withdrawal(w: WithdrawalModel) -> Seq<u8> {
    u64_le(w.index) + u64_le(w.validator_index) + w.address + u64_le(w.amount)
}

/// The withdrawal read back from 44 wire bytes.
pub open spec fn dec_withdrawal(s: Seq<u8>) -> WithdrawalModel
    recommends
        s.len() == 44,
{
    WithdrawalModel {
        index: u64_from_le(s.subrange(0, 8)),
        validator_index: u64_from_le(s.subrange(8, 16)),
        address: s.subrange(16, 36),
        amount: u64_from_le(s.subrange(36, 44)),
    }
}

pub open spec fn withdrawal_wf(w: WithdrawalModel) -> bool {
    w.address.len() == 20
}

pub proof fn lemma_withdrawal_round_trip(w: WithdrawalModel)
    requires
        withdrawal_wf(w),
    ensures
        enc_withdrawal(w).len() == 44,
        dec_withdrawal(enc_withdrawal(w)) == w,
{
    let s = enc_withdrawal(w);
    lemma_u64_le_round_trip(w.index);
    lemma_u64_le_round_trip(w.validator_index);
    lemma_u64_le_round_trip(w.amount);
    assert(s.subrange(0, 8) =~= u64_le(w.index));
    assert(s.subrange(8, 16) =~= u64_le(w.validator_index));
    assert(s.subrange(16, 36) =~= w.address);
    assert(s.subrange(36, 44) =~= u64_le(w.amount));
    assert(dec_withdrawal(s) =~= w);
}

/// Concatenated wire form of the first `i` withdrawals.
pub open spec fn enc_wds(ws: Seq<WithdrawalModel>, i: int) -> Seq<u8>
    decreases i,
{
    if i <= 0 {
        Seq::empty()
    } else {
        enc_wds(ws, i - 1) + enc_withdrawal(ws[i - 1])
    }
}

pub open spec fn wds_wf(ws: Seq<WithdrawalModel>) -> bool {
    forall|i: int| 0 <= i < ws.len() ==> #[trigger] withdrawal_wf(ws[i])
}

pub proof fn lemma_enc_wds_len(ws: Seq<WithdrawalModel>, i: int)
    requires
        0 <= i <= ws.len(),
        wds_wf(ws),
    ensures
        enc_wds(ws, i).len() == 44 * i,
    decreases i,
{
    if i > 0 {
        lemma_enc_wds_len(ws, i - 1);
        lemma_withdrawal_round_trip(ws[i - 1]);
    }
}

/// The list read back elementwise, 44 bytes per entry.
pub open spec fn dec_wds_seq(bytes: Seq<u8>, i: int, n: int) -> Seq<WithdrawalModel>
    decreases n - i,
{
    if i >= n {
        Seq::empty()
    } else {
        seq![dec_withdrawal(bytes.subrange(44 * i, 44 * (i + 1)))] + dec_wds_seq(bytes, i + 1, n)
    }
}

/// Decodes a withdrawal list: the length must be a whole number of 44-byte
/// elements and the count within its bound.
pub open spec fn dec_wds(bytes: Seq<u8>, max_count: int) -> Option<Seq<WithdrawalModel>> {
    if bytes.len() % 44 != 0 {
        None
    } else {
        let n = bytes.len() as int / 44;
        if n > max_count {
            None
        } else {
            Some(dec_wds_seq(bytes, 0, n))
        }
    }
}

proof fn lemma_dec_wds_seq_eq(bytes: Seq<u8>, ws: Seq<WithdrawalModel>, i: int)
    requires
        0 <= i <= ws.len(),
        forall|j: int|
            i <= j < ws.len() ==> #[trigger] dec_withdrawal(bytes.subrange(44 * j, 44 * (j + 1)))
                == ws[j],
    ensures
        dec_wds_seq(bytes, i, ws.len() as int) == ws.skip(i),
    decreases ws.len() - i,
{
    if i >= ws.len() {
        assert(ws.skip(i) =~= Seq::<WithdrawalModel>::empty());
    } else {
        lemma_dec_wds_seq_eq(bytes, ws, i + 1);
        assert(seq![ws[i]] + ws.skip(i + 1) =~= ws.skip(i));
    }
}

proof fn lemma_enc_wds_index(ws: Seq<WithdrawalModel>, i: int, j: int)
    requires
        0 <= j < i <= ws.len(),
        wds_wf(ws),
    ensures
        enc_wds(ws, i).subrange(44 * j, 44 * (j + 1)) == enc_withdrawal(ws[j]),
    decreases i,
{
    lemma_enc_wds_len(ws, i);
    lemma_enc_wds_len(ws, i - 1);
    lemma_withdrawal_round_trip(ws[i - 1]);
    if j == i - 1 {
        assert(enc_wds(ws, i).subrange(44 * j, 44 * (j + 1)) =~= enc_withdrawal(ws[j]));
    } else {
        lemma_enc_wds_index(ws, i - 1, j);
        assert(enc_wds(ws, i).subrange(44 * j, 44 * (j + 1)) =~= enc_wds(ws, i - 1).subrange(
            44 * j,
            44 * (j + 1),
        ));
    }
}

/// Decoding inverts encoding on every well-formed withdrawal list within its
/// count bound.
pub proof fn lemma_dec_wds_round_trip(ws: Seq<WithdrawalModel>, max_count: int)
    requires
        wds_wf(ws),
        ws.len() <= max_count,
    ensures
        dec_wds(enc_wds(ws, ws.len() as int), max_count) == Some(ws),
{
    let n = ws.len() as int;
    lemma_enc_wds_len(ws, n);
    assert((44 * n) % 44 == 0) by (nonlinear_arith);
    assert((44 * n) / 44 == n) by (nonlinear_arith);
    let bytes = enc_wds(ws, n);
    assert forall|j: int| 0 <= j < n implies #[trigger] dec_withdrawal(
        bytes.subrange(44 * j, 44 * (j + 1)),
    ) == ws[j] by {
        lemma_withdrawal_round_trip(ws[j]);
        lemma_enc_wds_index(ws, n, j);
    }
    lemma_dec_wds_seq_eq(bytes, ws, 0);
    assert(ws.skip(0) =~= ws);
}

/// Wire form of one deposit receipt: 192 bytes, fields in declaration order.
pub open spec fn enc_receipt(r: DepositReceiptModel) -> Seq<u8> {
    r.pubkey + r.withdrawal_credentials + u64_le(r.amount) + r.signature + u64_le(r.index)
}

/// The deposit receipt read back from 192 wire bytes.
pub open spec fn dec_receipt(s: Seq<u8>) -> DepositReceiptModel
    recommends
        s.len() == 192,
{
    DepositReceiptModel {
        pubkey: s.subrange(0, 48),
        withdrawal_credentials: s.subrange(48, 80),
        amount: u64_from_le(s.subrange(80, 88)),
        signature: s.subrange(88, 184),
        index: u64_from_le(s.subrange(184, 192)),
    }
}

pub open spec fn receipt_wf(r: DepositReceiptModel) -> bool {
    r.pubkey.len() == 48 && r.withdrawal_credentials.len() == 32 && r.signature.len() == 96
}

pub proof fn lemma_receipt_round_trip(r: DepositReceiptModel)
    requires
        receipt_wf(r),
    ensures
        enc_receipt(r).len() == 192,
        dec_receipt(enc_receipt(r)) == r,
{
    let s = enc_receipt(r);
    lemma_u64_le_round_trip(r.amount);
    lemma_u64_le_round_trip(r.index);
    assert(s.subrange(0, 48) =~= r.pubkey);
    assert(s.subrange(48, 80) =~= r.withdrawal_credentials);
    assert(s.subrange(80, 88) =~= u64_le(r.amount));
    assert(s.subrange(88, 184) =~= r.signature);
    assert(s.subrange(184, 192) =~= u64_le(r.index));
    assert(dec_receipt(s) =~= r);
}

/// Concatenated wire form of the first `i` deposit receipts.
pub open spec fn enc_receipts(rs: Seq<DepositReceiptModel>, i: int) -> Seq<u8>
    decreases i,
{
    if i <= 0 {
        Seq::empty()
    } else {
        enc_receipts(rs, i - 1) + enc_receipt(rs[i - 1])
    }
}

pub open spec fn receipts_wf(rs: Seq<DepositReceiptModel>) -> bool {
    forall|i: int| 0 <= i < rs.len() ==> #[trigger] receipt_wf(rs[i])
}

pub proof fn lemma_enc_receipts_len(rs: Seq<DepositReceiptModel>, i: int)
    requires
        0 <= i <= rs.len(),
        receipts_wf(rs),
    ensures
        enc_receipts(rs, i).len() == 192 * i,
    decreases i,
{
    if i > 0 {
        lemma_enc_receipts_len(rs, i - 1);
        lemma_receipt_round_trip(rs[i - 1]);
    }
}

/// The list read back elementwise, 192 bytes per entry.
pub open spec fn dec_receipts_seq(bytes: Seq<u8>, i: int, n: int) -> Seq<DepositReceiptModel>
    decreases n - i,
{
    if i >= n {
        Seq::empty()
    } else {
        seq![dec_receipt(bytes.subrange(192 * i, 192 * (i + 1)))] + dec_receipts_seq(
            bytes,
            i + 1,
            n,
        )
    }
}

/// Decodes a deposit-receipt list: the length must be a whole number of
/// 192-byte elements and the count within its bound.
pub open spec fn dec_receipts(bytes: Seq<u8>, max_count: int) -> Option<Seq<DepositReceiptModel>> {
    if bytes.len() % 192 != 0 {
        None
    } else {
        let n = bytes.len() as int / 192;
        if n > max_count {
            None
        } else {
            Some(dec_receipts_seq(bytes, 0, n))
        }
    }
}

proof fn lemma_enc_receipts_index(rs: Seq<DepositReceiptModel>, i: int, j: int)
    requires
        0 <= j < i <= rs.len(),
        receipts_wf(rs),
    ensures
        enc_receipts(rs, i).subrange(192 * j, 192 * (j + 1)) == enc_receipt(rs[j]),
    decreases i,
{
    lemma_enc_receipts_len(rs, i);
    lemma_enc_receipts_len(rs, i - 1);
    lemma_receipt_round_trip(rs[i - 1]);
    if j == i - 1 {
        assert(enc_receipts(rs, i).subrange(192 * j, 192 * (j + 1)) =~= enc_receipt(rs[j]));
    } else {
        lemma_enc_receipts_index(rs, i - 1, j);
        assert(enc_receipts(rs, i).subrange(192 * j, 192 * (j + 1)) =~= enc_receipts(
            rs,
            i - 1,
        ).subrange(192 * j, 192 * (j + 1)));
    }
}

proof fn lemma_dec_receipts_seq_eq(bytes: Seq<u8>, rs: Seq<DepositReceiptModel>, i: int)
    requires
        0 <= i <= rs.len(),
        forall|j: int|
            i <= j < rs.len() ==> #[trigger] dec_receipt(bytes.subrange(192 * j, 192 * (j + 1)))
                == rs[j],
    ensures
        dec_receipts_seq(bytes, i, rs.len() as int) == rs.skip(i),
    decreases rs.len() - i,
{
    if i >= rs.len() {
        assert(rs.skip(i) =~= Seq::<DepositReceiptModel>::empty());
    } else {
        lemma_dec_receipts_seq_eq(bytes, rs, i + 1);
        assert(seq![rs[i]] + rs.skip(i + 1) =~= rs.skip(i));
    }
}

/// Decoding inverts encoding on every well-formed deposit-receipt list
/// within its count bound.
pub proof fn lemma_dec_receipts_round_trip(rs: Seq<DepositReceiptModel>, max_count: int)
    requires
        receipts_wf(rs),
        rs.len() <= max_count,
    ensures
        dec_receipts(enc_receipts(rs, rs.len() as int), max_count) == Some(rs),
{
    let n = rs.len() as int;
    lemma_enc_receipts_len(rs, n);
    assert((192 * n) % 192 == 0) by (nonlinear_arith);
    assert((192 * n) / 192 == n) by (nonlinear_arith);
    let bytes = enc_receipts(rs, n);
    assert forall|j: int| 0 <= j < n implies #[trigger] dec_receipt(
        bytes.subrange(192 * j, 192 * (j + 1)),
    ) == rs[j] by {
        lemma_receipt_round_trip(rs[j]);
        lemma_enc_receipts_index(rs, n, j);
    }
    lemma_dec_receipts_seq_eq(bytes, rs, 0);
    assert(rs.skip(0) =~= rs);
}

/// Decoding inverts encoding on every in-bounds transaction list whose
/// encoding fits the 32-bit offset space.
pub proof fn lemma_dec_txs_round_trip(txs: Seq<Seq<u8>>, max_count: int, max_len: int)
    requires
        txs_valid(txs, max_count, max_len),
        enc_txs(txs).len() < 0x1_0000_0000,
    ensures
        dec_txs(enc_txs(txs), max_count, max_len) == Some(txs),
{
    let n = txs.len() as int;
    let bytes = enc_txs(txs);
    lemma_enc_tx_offsets_len(txs, n);
    lemma_enc_tx_payloads_len(txs, n);
    lemma_tx_payload_len_nonneg(txs, n);
    if n == 0 {
        assert(bytes.len() == 0);
        assert(txs =~= Seq::<Seq<u8>>::empty());
    } else {
        assert(bytes.len() >= 4);
        assert(bytes.subrange(0, 4) =~= enc_tx_offsets(txs, n).subrange(0, 4));
        lemma_enc_tx_offsets_index(txs, n, 0);
        lemma_u32_le_round_trip(((4 * n) as u32));
        let first = u32_from_le(bytes.subrange(0, 4)) as int;
        assert(first == 4 * n);
        lemma_dec_txs_from_round_trip(txs, 0, max_len);
        assert(txs.skip(0) =~= txs);
    }
}


/// The shared fixed prefix of every variant's wire form, through the
/// transactions offset; `o_extra` and `o_tx` are the two offsets written
/// into it.
pub open spec fn enc_prefix(c: PayloadCommonModel, o_extra: int, o_tx: int) -> Seq<u8> {
    c.parent_hash + c.fee_recipient + c.state_root + c.receipts_root + c.logs_bloom
        + c.prev_randao + u64_le(c.block_number) + u64_le(c.gas_limit) + u64_le(c.gas_used)
        + u64_le(c.timestamp) + u32_le((o_extra as u32)) + c.base_fee_per_gas + c.block_hash
        + u32_le((o_tx as u32))
}

/// The fixed-size fields of the shared prefix have their wire lengths.
pub open spec fn common_fixed_wf(c: PayloadCommonModel) -> bool {
    &&& c.parent_hash.len() == 32
    &&& c.fee_recipient.len() == 20
    &&& c.state_root.len() == 32
    &&& c.receipts_root.len() == 32
    &&& c.prev_randao.len() == 32
    &&& c.base_fee_per_gas.len() == 32
    &&& c.block_hash.len() == 32
}

/// Field lengths and bounds of the shared prefix.
pub open spec fn common_wf(c: PayloadCommonModel, b: PayloadBounds) -> bool {
    &&& common_fixed_wf(c)
    &&& c.logs_bloom.len() == b.bytes_per_logs_bloom
    &&& c.extra_data.len() <= b.max_extra_data_bytes
    &&& txs_valid(
        c.transactions,
        b.max_transactions_per_payload as int,
        b.max_bytes_per_transaction as int,
    )
}

/// A payload within the bounds of its variant's schema.
pub open spec fn payload_wf(p: PayloadModel, b: PayloadBounds) -> bool {
    match p {
        PayloadModel::Merge { common } => common_wf(common, b),
        PayloadModel::Capella { common, withdrawals } => {
            &&& common_wf(common, b)
            &&& wds_wf(withdrawals)
            &&& withdrawals.len() <= b.max_withdrawals_per_payload
        },
        PayloadModel::Deneb { common, withdrawals, excess_data_gas } => {
            &&& common_wf(common, b)
            &&& wds_wf(withdrawals)
            &&& withdrawals.len() <= b.max_withdrawals_per_payload
            &&& excess_data_gas.len() == 32
        },
        PayloadModel::Eip6110 { common, withdrawals, excess_data_gas, deposit_receipts } => {
            &&& common_wf(common, b)
            &&& wds_wf(withdrawals)
            &&& withdrawals.len() <= b.max_withdrawals_per_payload
            &&& excess_data_gas.len() == 32
            &&& receipts_wf(deposit_receipts)
            &&& deposit_receipts.len() <= b.max_deposit_receipts_per_payload
        },
    }
}

/// Total bytes of a transaction list's wire form.
pub open spec fn enc_txs_len(txs: Seq<Seq<u8>>) -> int {
    4 * txs.len() + tx_payload_len(txs, txs.len() as int)
}

pub open spec fn enc_merge(c: PayloadCommonModel) -> Seq<u8> {
    let fixed = 252 + c.logs_bloom.len() as int;
    enc_prefix(c, fixed, fixed + c.extra_data.len()) + c.extra_data + enc_txs(c.transactions)
}

pub open spec fn enc_capella(c: PayloadCommonModel, ws: Seq<WithdrawalModel>) -> Seq<u8> {
    let fixed = 256 + c.logs_bloom.len() as int;
    let o_extra = fixed;
    let o_tx = o_extra + c.extra_data.len();
    let o_wd = o_tx + enc_txs_len(c.transactions);
    enc_prefix(c, o_extra, o_tx) + u32_le((o_wd as u32)) + c.extra_data + enc_txs(c.transactions)
        + enc_wds(ws, ws.len() as int)
}

pub open spec fn enc_deneb(
    c: PayloadCommonModel,
    ws: Seq<WithdrawalModel>,
    excess: Seq<u8>,
) -> Seq<u8> {
    let fixed = 288 + c.logs_bloom.len() as int;
    let o_extra = fixed;
    let o_tx = o_extra + c.extra_data.len();
    let o_wd = o_tx + enc_txs_len(c.transactions);
    enc_prefix(c, o_extra, o_tx) + u32_le((o_wd as u32)) + excess + c.extra_data + enc_txs(
        c.transactions,
    ) + enc_wds(ws, ws.len() as int)
}

pub open spec fn enc_eip6110(
    c: PayloadCommonModel,
    ws: Seq<WithdrawalModel>,
    excess: Seq<u8>,
    rs: Seq<DepositReceiptModel>,
) -> Seq<u8> {
    let fixed = 292 + c.logs_bloom.len() as int;
    let o_extra = fixed;
    let o_tx = o_extra + c.extra_data.len();
    let o_wd = o_tx + enc_txs_len(c.transactions);
    let o_rc = o_wd + 44 * ws.len();
    enc_prefix(c, o_extra, o_tx) + u32_le((o_wd as u32)) + excess + u32_le((o_rc as u32))
        + c.extra_data + enc_txs(c.transactions) + enc_wds(ws, ws.len() as int) + enc_receipts(
        rs,
        rs.len() as int,
    )
}

/// Wire form of a payload, in its own variant's schema.
pub open spec fn enc_payload(p: PayloadModel) -> Seq<u8> {
    match p {
        PayloadModel::Merge { common } => enc_merge(common),
        PayloadModel::Capella { common, withdrawals } => enc_capella(common, withdrawals),
        PayloadModel::Deneb { common, withdrawals, excess_data_gas } => enc_deneb(
            common,
            withdrawals,
            excess_data_gas,
        ),
        PayloadModel::Eip6110 { common, withdrawals, excess_data_gas, deposit_receipts } =>
            enc_eip6110(common, withdrawals, excess_data_gas, deposit_receipts),
    }
}

/// The shared prefix fields read back from wire bytes, given the two
/// variable regions already cut out.
pub open spec fn dec_prefix_fields(
    bytes: Seq<u8>,
    lb: int,
    extra: Seq<u8>,
    txs: Seq<Seq<u8>>,
) -> PayloadCommonModel {
    PayloadCommonModel {
        parent_hash: bytes.subrange(0, 32),
        fee_recipient: bytes.subrange(32, 52),
        state_root: bytes.subrange(52, 84),
        receipts_root: bytes.subrange(84, 116),
        logs_bloom: bytes.subrange(116, 116 + lb),
        prev_randao: bytes.subrange(116 + lb, 148 + lb),
        block_number: u64_from_le(bytes.subrange(148 + lb, 156 + lb)),
        gas_limit: u64_from_le(bytes.subrange(156 + lb, 164 + lb)),
        gas_used: u64_from_le(bytes.subrange(164 + lb, 172 + lb)),
        timestamp: u64_from_le(bytes.subrange(172 + lb, 180 + lb)),
        extra_data: extra,
        base_fee_per_gas: bytes.subrange(184 + lb, 216 + lb),
        block_hash: bytes.subrange(216 + lb, 248 + lb),
        transactions: txs,
    }
}

pub open spec fn dec_merge(bytes: Seq<u8>, b: PayloadBounds) -> Option<PayloadCommonModel> {
    let lb = b.bytes_per_logs_bloom as int;
    let fixed = 252 + lb;
    if bytes.len() < fixed {
        None
    } else {
        let o_extra = u32_from_le(bytes.subrange(180 + lb, 184 + lb)) as int;
        let o_tx = u32_from_le(bytes.subrange(248 + lb, 252 + lb)) as int;
        if o_extra != fixed || o_tx < o_extra || o_tx > bytes.len() || o_tx - o_extra
            > b.max_extra_data_bytes {
            None
        } else {
            match dec_txs(
                bytes.subrange(o_tx, bytes.len() as int),
                b.max_transactions_per_payload as int,
                b.max_bytes_per_transaction as int,
            ) {
                Some(txs) => Some(
                    dec_prefix_fields(bytes, lb, bytes.subrange(o_extra, o_tx), txs),
                ),
                None => None,
            }
        }
    }
}

pub open spec fn dec_capella(bytes: Seq<u8>, b: PayloadBounds) -> Option<
    (PayloadCommonModel, Seq<WithdrawalModel>),
> {
    let lb = b.bytes_per_logs_bloom as int;
    let fixed = 256 + lb;
    if bytes.len() < fixed {
        None
    } else {
        let o_extra = u32_from_le(bytes.subrange(180 + lb, 184 + lb)) as int;
        let o_tx = u32_from_le(bytes.subrange(248 + lb, 252 + lb)) as int;
        let o_wd = u32_from_le(bytes.subrange(252 + lb, 256 + lb)) as int;
        if o_extra != fixed || o_tx < o_extra || o_wd < o_tx || o_wd > bytes.len() || o_tx
            - o_extra > b.max_extra_data_bytes {
            None
        } else {
            match (dec_txs(
                bytes.subrange(o_tx, o_wd),
                b.max_transactions_per_payload as int,
                b.max_bytes_per_transaction as int,
            ), dec_wds(
                bytes.subrange(o_wd, bytes.len() as int),
                b.max_withdrawals_per_payload as int,
            )) {
                (Some(txs), Some(ws)) => Some(
                    (dec_prefix_fields(bytes, lb, bytes.subrange(o_extra, o_tx), txs), ws),
                ),
                _ => None,
            }
        }
    }
}

pub open spec fn dec_deneb(bytes: Seq<u8>, b: PayloadBounds) -> Option<
    (PayloadCommonModel, Seq<WithdrawalModel>, Seq<u8>),
> {
    let lb = b.bytes_per_logs_bloom as int;
    let fixed = 288 + lb;
    if bytes.len() < fixed {
        None
    } else {
        let o_extra = u32_from_le(bytes.subrange(180 + lb, 184 + lb)) as int;
        let o_tx = u32_from_le(bytes.subrange(248 + lb, 252 + lb)) as int;
        let o_wd = u32_from_le(bytes.subrange(252 + lb, 256 + lb)) as int;
        if o_extra != fixed || o_tx < o_extra || o_wd < o_tx || o_wd > bytes.len() || o_tx
            - o_extra > b.max_extra_data_bytes {
            None
        } else {
            match (dec_txs(
                bytes.subrange(o_tx, o_wd),
                b.max_transactions_per_payload as int,
                b.max_bytes_per_transaction as int,
            ), dec_wds(
                bytes.subrange(o_wd, bytes.len() as int),
                b.max_withdrawals_per_payload as int,
            )) {
                (Some(txs), Some(ws)) => Some(
                    (
                        dec_prefix_fields(bytes, lb, bytes.subrange(o_extra, o_tx), txs),
                        ws,
                        bytes.subrange(256 + lb, 288 + lb),
                    ),
                ),
                _ => None,
            }
        }
    }
}

pub open spec fn dec_eip6110(bytes: Seq<u8>, b: PayloadBounds) -> Option<
    (PayloadCommonModel, Seq<WithdrawalModel>, Seq<u8>, Seq<DepositReceiptModel>),
> {
    let lb = b.bytes_per_logs_bloom as int;
    let fixed = 292 + lb;
    if bytes.len() < fixed {
        None
    } else {
        let o_extra = u32_from_le(bytes.subrange(180 + lb, 184 + lb)) as int;
        let o_tx = u32_from_le(bytes.subrange(248 + lb, 252 + lb)) as int;
        let o_wd = u32_from_le(bytes.subrange(252 + lb, 256 + lb)) as int;
        let o_rc = u32_from_le(bytes.subrange(288 + lb, 292 + lb)) as int;
        if o_extra != fixed || o_tx < o_extra || o_wd < o_tx || o_rc < o_wd || o_rc > bytes.len()
            || o_tx - o_extra > b.max_extra_data_bytes {
            None
        } else {
            match (dec_txs(
                bytes.subrange(o_tx, o_wd),
                b.max_transactions_per_payload as int,
                b.max_bytes_per_transaction as int,
            ), dec_wds(bytes.subrange(o_wd, o_rc), b.max_withdrawals_per_payload as int),
                dec_receipts(
                bytes.subrange(o_rc, bytes.len() as int),
                b.max_deposit_receipts_per_payload as int,
            )) {
                (Some(txs), Some(ws), Some(rs)) => Some(
                    (
                        dec_prefix_fields(bytes, lb, bytes.subrange(o_extra, o_tx), txs),
                        ws,
                        bytes.subrange(256 + lb, 288 + lb),
                        rs,
                    ),
                ),
                _ => None,
            }
        }
    }
}

/// Fork-dispatched decode: the two forks that predate execution payloads are
/// rejected as unsupported; malformed bytes of a supported fork are a decode
/// error.
pub open spec fn spec_decode_payload(
    bytes: Seq<u8>,
    fork_name: ForkName,
    b: PayloadBounds,
) -> Result<PayloadModel, PayloadError> {
    match fork_name {
        ForkName::Base => Err(PayloadError::UnsupportedFork),
        ForkName::Altair => Err(PayloadError::UnsupportedFork),
        ForkName::Merge => match dec_merge(bytes, b) {
            Some(c) => Ok(PayloadModel::Merge { common: c }),
            None => Err(PayloadError::DecodeError),
        },
        ForkName::Capella => match dec_capella(bytes, b) {
            Some((c, ws)) => Ok(PayloadModel::Capella { common: c, withdrawals: ws }),
            None => Err(PayloadError::DecodeError),
        },
        ForkName::Deneb => match dec_deneb(bytes, b) {
            Some((c, ws, x)) => Ok(
                PayloadModel::Deneb { common: c, withdrawals: ws, excess_data_gas: x },
            ),
            None => Err(PayloadError::DecodeError),
        },
        ForkName::Eip6110 => match dec_eip6110(bytes, b) {
            Some((c, ws, x, rs)) => Ok(
                PayloadModel::Eip6110 {
                    common: c,
                    withdrawals: ws,
                    excess_data_gas: x,
                    deposit_receipts: rs,
                },
            ),
            None => Err(PayloadError::DecodeError),
        },
    }
}


/// Every fixed field of the shared prefix is read back from its position in
/// any wire form that begins with the prefix.
#[verifier::rlimit(100)]
#[verifier::spinoff_prover]
pub proof fn lemma_prefix_extract(c: PayloadCommonModel, o1: int, o2: int, rest: Seq<u8>)
    requires
        c.parent_hash.len() == 32,
        c.fee_recipient.len() == 20,
        c.state_root.len() == 32,
        c.receipts_root.len() == 32,
        c.prev_randao.len() == 32,
        c.base_fee_per_gas.len() == 32,
        c.block_hash.len() == 32,
        0 <= o1 < 0x1_0000_0000,
        0 <= o2 < 0x1_0000_0000,
    ensures
        ({
            let lb = c.logs_bloom.len() as int;
            let bytes = enc_prefix(c, o1, o2) + rest;
            &&& enc_prefix(c, o1, o2).len() == 252 + lb
            &&& bytes.subrange(0, 32) == c.parent_hash
            &&& bytes.subrange(32, 52) == c.fee_recipient
            &&& bytes.subrange(52, 84) == c.state_root
            &&& bytes.subrange(84, 116) == c.receipts_root
            &&& bytes.subrange(116, 116 + lb) == c.logs_bloom
            &&& bytes.subrange(116 + lb, 148 + lb) == c.prev_randao
            &&& u64_from_le(bytes.subrange(148 + lb, 156 + lb)) == c.block_number
            &&& u64_from_le(bytes.subrange(156 + lb, 164 + lb)) == c.gas_limit
            &&& u64_from_le(bytes.subrange(164 + lb, 172 + lb)) == c.gas_used
            &&& u64_from_le(bytes.subrange(172 + lb, 180 + lb)) == c.timestamp
            &&& u32_from_le(bytes.subrange(180 + lb, 184 + lb)) as int == o1
            &&& bytes.subrange(184 + lb, 216 + lb) == c.base_fee_per_gas
            &&& bytes.subrange(216 + lb, 248 + lb) == c.block_hash
            &&& u32_from_le(bytes.subrange(248 + lb, 252 + lb)) as int == o2
        }),
{
    let lb = c.logs_bloom.len() as int;
    let bytes = enc_prefix(c, o1, o2) + rest;
    lemma_u64_le_round_trip(c.block_number);
    lemma_u64_le_round_trip(c.gas_limit);
    lemma_u64_le_round_trip(c.gas_used);
    lemma_u64_le_round_trip(c.timestamp);
    lemma_u32_le_round_trip((o1 as u32));
    lemma_u32_le_round_trip((o2 as u32));
    assert(bytes.subrange(0, 32) =~= c.parent_hash);
    assert(bytes.subrange(32, 52) =~= c.fee_recipient);
    assert(bytes.subrange(52, 84) =~= c.state_root);
    assert(bytes.subrange(84, 116) =~= c.receipts_root);
    assert(bytes.subrange(116, 116 + lb) =~= c.logs_bloom);
    assert(bytes.subrange(116 + lb, 148 + lb) =~= c.prev_randao);
    assert(bytes.subrange(148 + lb, 156 + lb) =~= u64_le(c.block_number));
    assert(bytes.subrange(156 + lb, 164 + lb) =~= u64_le(c.gas_limit));
    assert(bytes.subrange(164 + lb, 172 + lb) =~= u64_le(c.gas_used));
    assert(bytes.subrange(172 + lb, 180 + lb) =~= u64_le(c.timestamp));
    assert(bytes.subrange(180 + lb, 184 + lb) =~= u32_le((o1 as u32)));
    assert(bytes.subrange(184 + lb, 216 + lb) =~= c.base_fee_per_gas);
    assert(bytes.subrange(216 + lb, 248 + lb) =~= c.block_hash);
    assert(bytes.subrange(248 + lb, 252 + lb) =~= u32_le((o2 as u32)));
}

/// Decoding inverts encoding on a well-formed first-upgrade payload.
#[verifier::rlimit(100)]
#[verifier::spinoff_prover]
pub proof fn lemma_dec_merge_round_trip(c: PayloadCommonModel, b: PayloadBounds)
    requires
        common_wf(c, b),
        enc_merge(c).len() < 0x1_0000_0000,
    ensures
        dec_merge(enc_merge(c), b) == Some(c),
{
    let lb = c.logs_bloom.len() as int;
    let fixed = 252 + lb;
    let o_tx = fixed + c.extra_data.len() as int;
    let txs = c.transactions;
    let tb = enc_txs(txs);
    lemma_enc_tx_offsets_len(txs, txs.len() as int);
    lemma_enc_tx_payloads_len(txs, txs.len() as int);
    lemma_tx_payload_len_nonneg(txs, txs.len() as int);
    let bytes = enc_merge(c);
    let rest = c.extra_data + tb;
    assert(bytes =~= enc_prefix(c, fixed, o_tx) + rest);
    lemma_prefix_extract(c, fixed, o_tx, rest);
    assert(bytes.subrange(fixed, o_tx) =~= c.extra_data);
    assert(bytes.subrange(o_tx, bytes.len() as int) =~= tb);
    lemma_dec_txs_round_trip(
        txs,
        b.max_transactions_per_payload as int,
        b.max_bytes_per_transaction as int,
    );
    assert(dec_prefix_fields(bytes, lb, bytes.subrange(fixed, o_tx), txs) =~= c);
}

/// Decoding inverts encoding on a well-formed second-upgrade payload.
#[verifier::rlimit(100)]
#[verifier::spinoff_prover]
pub proof fn lemma_dec_capella_round_trip(
    c: PayloadCommonModel,
    ws: Seq<WithdrawalModel>,
    b: PayloadBounds,
)
    requires
        payload_wf(PayloadModel::Capella { common: c, withdrawals: ws }, b),
        enc_capella(c, ws).len() < 0x1_0000_0000,
    ensures
        dec_capella(enc_capella(c, ws), b) == Some((c, ws)),
{
    let lb = c.logs_bloom.len() as int;
    let fixed = 256 + lb;
    let o_tx = fixed + c.extra_data.len() as int;
    let txs = c.transactions;
    let tb = enc_txs(txs);
    lemma_enc_tx_offsets_len(txs, txs.len() as int);
    lemma_enc_tx_payloads_len(txs, txs.len() as int);
    lemma_tx_payload_len_nonneg(txs, txs.len() as int);
    let o_wd = o_tx + enc_txs_len(txs);
    let wb = enc_wds(ws, ws.len() as int);
    lemma_enc_wds_len(ws, ws.len() as int);
    let bytes = enc_capella(c, ws);
    let rest = u32_le((o_wd as u32)) + c.extra_data + tb + wb;
    assert(bytes =~= enc_prefix(c, fixed, o_tx) + rest);
    lemma_prefix_extract(c, fixed, o_tx, rest);
    lemma_u32_le_round_trip((o_wd as u32));
    assert(bytes.subrange(252 + lb, 256 + lb) =~= u32_le((o_wd as u32)));
    assert(u32_from_le(bytes.subrange(252 + lb, 256 + lb)) as int == o_wd);
    assert(bytes.subrange(fixed, o_tx) =~= c.extra_data);
    assert(bytes.subrange(o_tx, o_wd) =~= tb);
    assert(bytes.subrange(o_wd, bytes.len() as int) =~= wb);
    lemma_dec_txs_round_trip(
        txs,
        b.max_transactions_per_payload as int,
        b.max_bytes_per_transaction as int,
    );
    lemma_dec_wds_round_trip(ws, b.max_withdrawals_per_payload as int);
    assert(dec_prefix_fields(bytes, lb, bytes.subrange(fixed, o_tx), txs) =~= c);
}

/// Decoding inverts encoding on a well-formed third-upgrade payload.
#[verifier::rlimit(100)]
#[verifier::spinoff_prover]
pub proof fn lemma_dec_deneb_round_trip(
    c: PayloadCommonModel,
    ws: Seq<WithdrawalModel>,
    excess: Seq<u8>,
    b: PayloadBounds,
)
    requires
        payload_wf(
            PayloadModel::Deneb { common: c, withdrawals: ws, excess_data_gas: excess },
            b,
        ),
        enc_deneb(c, ws, excess).len() < 0x1_0000_0000,
    ensures
        dec_deneb(enc_deneb(c, ws, excess), b) == Some((c, ws, excess)),
{
    let lb = c.logs_bloom.len() as int;
    let fixed = 288 + lb;
    let o_tx = fixed + c.extra_data.len() as int;
    let txs = c.transactions;
    let tb = enc_txs(txs);
    lemma_enc_tx_offsets_len(txs, txs.len() as int);
    lemma_enc_tx_payloads_len(txs, txs.len() as int);
    lemma_tx_payload_len_nonneg(txs, txs.len() as int);
    let o_wd = o_tx + enc_txs_len(txs);
    let wb = enc_wds(ws, ws.len() as int);
    lemma_enc_wds_len(ws, ws.len() as int);
    let bytes = enc_deneb(c, ws, excess);
    let rest = u32_le((o_wd as u32)) + excess + c.extra_data + tb + wb;
    assert(bytes =~= enc_prefix(c, fixed, o_tx) + rest);
    lemma_prefix_extract(c, fixed, o_tx, rest);
    lemma_u32_le_round_trip((o_wd as u32));
    assert(bytes.subrange(252 + lb, 256 + lb) =~= u32_le((o_wd as u32)));
    assert(u32_from_le(bytes.subrange(252 + lb, 256 + lb)) as int == o_wd);
    assert(bytes.subrange(256 + lb, 288 + lb) =~= excess);
    assert(bytes.subrange(fixed, o_tx) =~= c.extra_data);
    assert(bytes.subrange(o_tx, o_wd) =~= tb);
    assert(bytes.subrange(o_wd, bytes.len() as int) =~= wb);
    lemma_dec_txs_round_trip(
        txs,
        b.max_transactions_per_payload as int,
        b.max_bytes_per_transaction as int,
    );
    lemma_dec_wds_round_trip(ws, b.max_withdrawals_per_payload as int);
    assert(dec_prefix_fields(bytes, lb, bytes.subrange(fixed, o_tx), txs) =~= c);
}

/// Decoding inverts encoding on a well-formed fourth-upgrade payload.
#[verifier::rlimit(100)]
#[verifier::spinoff_prover]
pub proof fn lemma_dec_eip6110_round_trip(
    c: PayloadCommonModel,
    ws: Seq<WithdrawalModel>,
    excess: Seq<u8>,
    rs: Seq<DepositReceiptModel>,
    b: PayloadBounds,
)
    requires
        payload_wf(
            PayloadModel::Eip6110 {
                common: c,
                withdrawals: ws,
                excess_data_gas: excess,
                deposit_receipts: rs,
            },
            b,
        ),
        enc_eip6110(c, ws, excess, rs).len() < 0x1_0000_0000,
    ensures
        dec_eip6110(enc_eip6110(c, ws, excess, rs), b) == Some((c, ws, excess, rs)),
{
    let lb = c.logs_bloom.len() as int;
    let fixed = 292 + lb;
    let o_tx = fixed + c.extra_data.len() as int;
    let txs = c.transactions;
    let tb = enc_txs(txs);
    lemma_enc_tx_offsets_len(txs, txs.len() as int);
    lemma_enc_tx_payloads_len(txs, txs.len() as int);
    lemma_tx_payload_len_nonneg(txs, txs.len() as int);
    let o_wd = o_tx + enc_txs_len(txs);
    let wb = enc_wds(ws, ws.len() as int);
    lemma_enc_wds_len(ws, ws.len() as int);
    let o_rc = o_wd + 44 * ws.len() as int;
    let rb = enc_receipts(rs, rs.len() as int);
    lemma_enc_receipts_len(rs, rs.len() as int);
    let bytes = enc_eip6110(c, ws, excess, rs);
    let rest = u32_le((o_wd as u32)) + excess + u32_le((o_rc as u32)) + c.extra_data + tb + wb
        + rb;
    assert(bytes =~= enc_prefix(c, fixed, o_tx) + rest);
    lemma_prefix_extract(c, fixed, o_tx, rest);
    lemma_u32_le_round_trip((o_wd as u32));
    lemma_u32_le_round_trip((o_rc as u32));
    assert(bytes.subrange(252 + lb, 256 + lb) =~= u32_le((o_wd as u32)));
    assert(u32_from_le(bytes.subrange(252 + lb, 256 + lb)) as int == o_wd);
    assert(bytes.subrange(256 + lb, 288 + lb) =~= excess);
    assert(bytes.subrange(288 + lb, 292 + lb) =~= u32_le((o_rc as u32)));
    assert(u32_from_le(bytes.subrange(288 + lb, 292 + lb)) as int == o_rc);
    assert(bytes.subrange(fixed, o_tx) =~= c.extra_data);
    assert(bytes.subrange(o_tx, o_wd) =~= tb);
    assert(bytes.subrange(o_wd, o_rc) =~= wb);
    assert(bytes.subrange(o_rc, bytes.len() as int) =~= rb);
    lemma_dec_txs_round_trip(
        txs,
        b.max_transactions_per_payload as int,
        b.max_bytes_per_transaction as int,
    );
    lemma_dec_wds_round_trip(ws, b.max_withdrawals_per_payload as int);
    lemma_dec_receipts_round_trip(rs, b.max_deposit_receipts_per_payload as int);
    assert(dec_prefix_fields(bytes, lb, bytes.subrange(fixed, o_tx), txs) =~= c);
}

/// The fork tag under which a payload's own variant decodes.
pub open spec fn fork_of_payload(p: PayloadModel) -> ForkName {
    match p {
        PayloadModel::Merge { .. } => ForkName::Merge,
        PayloadModel::Capella { .. } => ForkName::Capella,
        PayloadModel::Deneb { .. } => ForkName::Deneb,
        PayloadModel::Eip6110 { .. } => ForkName::Eip6110,
    }
}

/// For each of the four variants, decoding the wire form under the matching
/// fork tag returns the payload unchanged, for every well-formed value whose
/// encoding fits the 32-bit offset space.
pub proof fn lemma_payload_round_trip(p: PayloadModel, b: PayloadBounds)
    requires
        payload_wf(p, b),
        enc_payload(p).len() < 0x1_0000_0000,
    ensures
        spec_decode_payload(enc_payload(p), fork_of_payload(p), b) == Ok::<
            PayloadModel,
            PayloadError,
        >(p),
{
    match p {
        PayloadModel::Merge { common } => {
            lemma_dec_merge_round_trip(common, b);
        },
        PayloadModel::Capella { common, withdrawals } => {
            lemma_dec_capella_round_trip(common, withdrawals, b);
        },
        PayloadModel::Deneb { common, withdrawals, excess_data_gas } => {
            lemma_dec_deneb_round_trip(common, withdrawals, excess_data_gas, b);
        },
        PayloadModel::Eip6110 { common, withdrawals, excess_data_gas, deposit_receipts } => {
            lemma_dec_eip6110_round_trip(
                common,
                withdrawals,
                excess_data_gas,
                deposit_receipts,
                b,
            );
        },
    }
}

/// Decoding under a tag that predates execution payloads fails with
/// `UnsupportedFork`, whatever the bytes.
pub proof fn lemma_decode_pre_payload_forks(bytes: Seq<u8>, fork_name: ForkName, b: PayloadBounds)
    requires
        fork_name == ForkName::Base || fork_name == ForkName::Altair,
    ensures
        spec_decode_payload(bytes, fork_name, b) == Err::<PayloadModel, PayloadError>(
            PayloadError::UnsupportedFork,
        ),
{
}


/// Copies the bytes between `start` and `end`.
pub fn copy_range(bytes: &[u8], start: usize, end: usize) -> (r: Vec<u8>)
    requires
        start <= end <= bytes@.len(),
    ensures
        r@ == bytes@.subrange(start as int, end as int),
{
    let mut out: Vec<u8> = Vec::new();
    let mut i: usize = start;
    while i < end
        invariant
            start <= i <= end <= bytes@.len(),
            out@ == bytes@.subrange(start as int, i as int),
        decreases end - i,
    {
        out.push(bytes[i]);
        assert(out@ =~= bytes@.subrange(start as int, i + 1));
        i = i + 1;
    }
    out
}

/// Appends the shared fixed prefix, with the two offsets it carries.
pub fn append_prefix(out: &mut Vec<u8>, c: &PayloadCommon, o_extra: u32, o_tx: u32)
    ensures
        final(out)@ == old(out)@ + enc_prefix(c@, o_extra as int, o_tx as int),
{
    append_bytes(out, &c.parent_hash);
    append_bytes(out, &c.fee_recipient);
    append_bytes(out, &c.state_root);
    append_bytes(out, &c.receipts_root);
    append_bytes(out, &c.logs_bloom);
    append_bytes(out, &c.prev_randao);
    append_u64_le(out, c.block_number);
    append_u64_le(out, c.gas_limit);
    append_u64_le(out, c.gas_used);
    append_u64_le(out, c.timestamp);
    append_u32_le(out, o_extra);
    append_bytes(out, &c.base_fee_per_gas);
    append_bytes(out, &c.block_hash);
    append_u32_le(out, o_tx);
    assert(out@ =~= old(out)@ + enc_prefix(c@, o_extra as int, o_tx as int));
}

/// Appends a transaction list's wire form: offset table, then elements.
pub fn append_txs(out: &mut Vec<u8>, txs: &Vec<Vec<u8>>)
    requires
        4 * txs@.len() + tx_payload_len(
            txs@.map_values(|t: Vec<u8>| t@),
            txs@.len() as int,
        ) < 0x1_0000_0000,
    ensures
        final(out)@ == old(out)@ + enc_txs(txs@.map_values(|t: Vec<u8>| t@)),
{
    let ghost m = txs@.map_values(|t: Vec<u8>| t@);
    let n = txs.len();
    proof {
        lemma_tx_payload_len_nonneg(m, n as int);
    }
    let mut off: usize = 4 * n;
    let mut i: usize = 0;
    while i < n
        invariant
            n == txs@.len(),
            m == txs@.map_values(|t: Vec<u8>| t@),
            4 * n + tx_payload_len(m, n as int) < 0x1_0000_0000,
            0 <= i <= n,
            off == 4 * n + tx_payload_len(m, i as int),
            out@ == old(out)@ + enc_tx_offsets(m, i as int),
        decreases n - i,
    {
        proof {
            lemma_tx_payload_len_mono(m, i as int, n as int);
            lemma_tx_payload_len_mono(m, i + 1, n as int);
            assert(m[i as int] == txs@[i as int]@);
        }
        append_u32_le(out, off as u32);
        assert(out@ =~= old(out)@ + enc_tx_offsets(m, i + 1));
        off = off + txs[i].len();
        i = i + 1;
    }
    let mut j: usize = 0;
    while j < n
        invariant
            n == txs@.len(),
            m == txs@.map_values(|t: Vec<u8>| t@),
            0 <= j <= n,
            out@ == old(out)@ + enc_tx_offsets(m, n as int) + enc_tx_payloads(m, j as int),
        decreases n - j,
    {
        proof {
            assert(m[j as int] == txs@[j as int]@);
        }
        append_bytes(out, &txs[j]);
        assert(out@ =~= old(out)@ + enc_tx_offsets(m, n as int) + enc_tx_payloads(m, j + 1));
        j = j + 1;
    }
    assert(out@ =~= old(out)@ + enc_txs(m));
}

/// Appends a withdrawal list's wire form, 44 bytes per element.
pub fn append_wds(out: &mut Vec<u8>, ws: &Vec<Withdrawal>)
    ensures
        final(out)@ == old(out)@ + enc_wds(ws@.map_values(|w: Withdrawal| w@), ws@.len() as int),
{
    let ghost m = ws@.map_values(|w: Withdrawal| w@);
    let n = ws.len();
    let mut i: usize = 0;
    while i < n
        invariant
            n == ws@.len(),
            m == ws@.map_values(|w: Withdrawal| w@),
            0 <= i <= n,
            out@ == old(out)@ + enc_wds(m, i as int),
        decreases n - i,
    {
        proof {
            assert(m[i as int] == ws@[i as int]@);
        }
        let w = &ws[i];
        append_u64_le(out, w.index);
        append_u64_le(out, w.validator_index);
        append_bytes(out, &w.address);
        append_u64_le(out, w.amount);
        assert(out@ =~= old(out)@ + enc_wds(m, i + 1));
        i = i + 1;
    }
}

/// Appends a deposit-receipt list's wire form, 192 bytes per element.
pub fn append_receipts(out: &mut Vec<u8>, rs: &Vec<DepositReceipt>)
    ensures
        final(out)@ == old(out)@ + enc_receipts(
            rs@.map_values(|r: DepositReceipt| r@),
            rs@.len() as int,
        ),
{
    let ghost m = rs@.map_values(|r: DepositReceipt| r@);
    let n = rs.len();
    let mut i: usize = 0;
    while i < n
        invariant
            n == rs@.len(),
            m == rs@.map_values(|r: DepositReceipt| r@),
            0 <= i <= n,
            out@ == old(out)@ + enc_receipts(m, i as int),
        decreases n - i,
    {
        proof {
            assert(m[i as int] == rs@[i as int]@);
        }
        let r = &rs[i];
        append_bytes(out, &r.pubkey);
        append_bytes(out, &r.withdrawal_credentials);
        append_u64_le(out, r.amount);
        append_bytes(out, &r.signature);
        append_u64_le(out, r.index);
        assert(out@ =~= old(out)@ + enc_receipts(m, i + 1));
        i = i + 1;
    }
}


proof fn lemma_enc_prefix_len(c: PayloadCommonModel, o1: int, o2: int)
    requires
        c.parent_hash.len() == 32,
        c.fee_recipient.len() == 20,
        c.state_root.len() == 32,
        c.receipts_root.len() == 32,
        c.prev_randao.len() == 32,
        c.base_fee_per_gas.len() == 32,
        c.block_hash.len() == 32,
    ensures
        enc_prefix(c, o1, o2).len() == 252 + c.logs_bloom.len(),
{
}

/// Total wire size of a transaction list.
pub fn txs_encoded_len(txs: &Vec<Vec<u8>>) -> (r: usize)
    requires
        4 * txs@.len() + tx_payload_len(
            txs@.map_values(|t: Vec<u8>| t@),
            txs@.len() as int,
        ) < 0x1_0000_0000,
    ensures
        r == enc_txs_len(txs@.map_values(|t: Vec<u8>| t@)),
{
    let ghost m = txs@.map_values(|t: Vec<u8>| t@);
    let n = txs.len();
    proof {
        lemma_tx_payload_len_nonneg(m, n as int);
    }
    let mut total: usize = 4 * n;
    let mut i: usize = 0;
    while i < n
        invariant
            n == txs@.len(),
            m == txs@.map_values(|t: Vec<u8>| t@),
            4 * n + tx_payload_len(m, n as int) < 0x1_0000_0000,
            0 <= i <= n,
            total == 4 * n + tx_payload_len(m, i as int),
        decreases n - i,
    {
        proof {
            lemma_tx_payload_len_mono(m, i + 1, n as int);
            assert(m[i as int] == txs@[i as int]@);
        }
        total = total + txs[i].len();
        i = i + 1;
    }
    total
}

impl ExecutionPayloadMerge {
    /// Wire form of this payload; the caller keeps the whole encoding inside
    /// the 32-bit offset space.
    pub fn as_ssz_bytes(&self) -> (r: Vec<u8>)
        requires
            common_fixed_wf(self.common@),
            enc_merge(self.common@).len() < 0x1_0000_0000,
        ensures
            r@ == enc_merge(self.common@),
    {
        let c = &self.common;
        let ghost m = c@;
        let ghost lbg = m.logs_bloom.len() as int;
        proof {
            lemma_enc_prefix_len(m, 252 + lbg, 252 + lbg + m.extra_data.len());
            lemma_enc_tx_offsets_len(m.transactions, m.transactions.len() as int);
            lemma_enc_tx_payloads_len(m.transactions, m.transactions.len() as int);
            lemma_tx_payload_len_nonneg(m.transactions, m.transactions.len() as int);
        }
        let lb = c.logs_bloom.len();
        let fixed = 252 + lb;
        let o_tx = fixed + c.extra_data.len();
        let mut out: Vec<u8> = Vec::new();
        append_prefix(&mut out, c, fixed as u32, o_tx as u32);
        append_bytes(&mut out, &c.extra_data);
        append_txs(&mut out, &c.transactions);
        assert(out@ =~= enc_merge(m));
        out
    }
}

impl ExecutionPayloadCapella {
    /// Wire form of this payload; the caller keeps the whole encoding inside
    /// the 32-bit offset space.
    pub fn as_ssz_bytes(&self) -> (r: Vec<u8>)
        requires
            common_fixed_wf(self.common@),
            enc_capella(self.common@, self.withdrawals@.map_values(|w: Withdrawal| w@)).len()
                < 0x1_0000_0000,
        ensures
            r@ == enc_capella(self.common@, self.withdrawals@.map_values(|w: Withdrawal| w@)),
    {
        let c = &self.common;
        let ghost m = c@;
        let ghost wm = self.withdrawals@.map_values(|w: Withdrawal| w@);
        let ghost lbg = m.logs_bloom.len() as int;
        proof {
            lemma_enc_prefix_len(m, 256 + lbg, 256 + lbg + m.extra_data.len());
            lemma_enc_tx_offsets_len(m.transactions, m.transactions.len() as int);
            lemma_enc_tx_payloads_len(m.transactions, m.transactions.len() as int);
            lemma_tx_payload_len_nonneg(m.transactions, m.transactions.len() as int);
        }
        let lb = c.logs_bloom.len();
        let fixed = 256 + lb;
        let o_tx = fixed + c.extra_data.len();
        let tx_len = txs_encoded_len(&c.transactions);
        let o_wd = o_tx + tx_len;
        let mut out: Vec<u8> = Vec::new();
        append_prefix(&mut out, c, fixed as u32, o_tx as u32);
        append_u32_le(&mut out, o_wd as u32);
        append_bytes(&mut out, &c.extra_data);
        append_txs(&mut out, &c.transactions);
        append_wds(&mut out, &self.withdrawals);
        assert(out@ =~= enc_capella(m, wm));
        out
    }
}

impl ExecutionPayloadDeneb {
    /// Wire form of this payload; the caller keeps the whole encoding inside
    /// the 32-bit offset space.
    pub fn as_ssz_bytes(&self) -> (r: Vec<u8>)
        requires
            common_fixed_wf(self.common@),
            self.excess_data_gas@.len() == 32,
            enc_deneb(
                self.common@,
                self.withdrawals@.map_values(|w: Withdrawal| w@),
                self.excess_data_gas@,
            ).len() < 0x1_0000_0000,
        ensures
            r@ == enc_deneb(
                self.common@,
                self.withdrawals@.map_values(|w: Withdrawal| w@),
                self.excess_data_gas@,
            ),
    {
        let c = &self.common;
        let ghost m = c@;
        let ghost wm = self.withdrawals@.map_values(|w: Withdrawal| w@);
        let ghost lbg = m.logs_bloom.len() as int;
        proof {
            lemma_enc_prefix_len(m, 288 + lbg, 288 + lbg + m.extra_data.len());
            lemma_enc_tx_offsets_len(m.transactions, m.transactions.len() as int);
            lemma_enc_tx_payloads_len(m.transactions, m.transactions.len() as int);
            lemma_tx_payload_len_nonneg(m.transactions, m.transactions.len() as int);
        }
        let lb = c.logs_bloom.len();
        let fixed = 288 + lb;
        let o_tx = fixed + c.extra_data.len();
        let tx_len = txs_encoded_len(&c.transactions);
        let o_wd = o_tx + tx_len;
        let mut out: Vec<u8> = Vec::new();
        append_prefix(&mut out, c, fixed as u32, o_tx as u32);
        append_u32_le(&mut out, o_wd as u32);
        append_bytes(&mut out, &self.excess_data_gas);
        append_bytes(&mut out, &c.extra_data);
        append_txs(&mut out, &c.transactions);
        append_wds(&mut out, &self.withdrawals);
        assert(out@ =~= enc_deneb(m, wm, self.excess_data_gas@));
        out
    }
}

impl ExecutionPayloadEip6110 {
    /// Wire form of this payload; the caller keeps the whole encoding inside
    /// the 32-bit offset space.
    pub fn as_ssz_bytes(&self) -> (r: Vec<u8>)
        requires
            common_fixed_wf(self.common@),
            self.excess_data_gas@.len() == 32,
            enc_eip6110(
                self.common@,
                self.withdrawals@.map_values(|w: Withdrawal| w@),
                self.excess_data_gas@,
                self.deposit_receipts@.map_values(|x: DepositReceipt| x@),
            ).len() < 0x1_0000_0000,
            wds_wf(self.withdrawals@.map_values(|w: Withdrawal| w@)),
        ensures
            r@ == enc_eip6110(
                self.common@,
                self.withdrawals@.map_values(|w: Withdrawal| w@),
                self.excess_data_gas@,
                self.deposit_receipts@.map_values(|x: DepositReceipt| x@),
            ),
    {
        let c = &self.common;
        let ghost m = c@;
        let ghost wm = self.withdrawals@.map_values(|w: Withdrawal| w@);
        let ghost rm = self.deposit_receipts@.map_values(|x: DepositReceipt| x@);
        let ghost lbg = m.logs_bloom.len() as int;
        proof {
            lemma_enc_prefix_len(m, 292 + lbg, 292 + lbg + m.extra_data.len());
            lemma_enc_tx_offsets_len(m.transactions, m.transactions.len() as int);
            lemma_enc_tx_payloads_len(m.transactions, m.transactions.len() as int);
            lemma_tx_payload_len_nonneg(m.transactions, m.transactions.len() as int);
            lemma_enc_wds_len(wm, wm.len() as int);
        }
        let lb = c.logs_bloom.len();
        let fixed = 292 + lb;
        let o_tx = fixed + c.extra_data.len();
        let tx_len = txs_encoded_len(&c.transactions);
        let o_wd = o_tx + tx_len;
        let o_rc = o_wd + 44 * self.withdrawals.len();
        let mut out: Vec<u8> = Vec::new();
        append_prefix(&mut out, c, fixed as u32, o_tx as u32);
        append_u32_le(&mut out, o_wd as u32);
        append_bytes(&mut out, &self.excess_data_gas);
        append_u32_le(&mut out, o_rc as u32);
        append_bytes(&mut out, &c.extra_data);
        append_txs(&mut out, &c.transactions);
        append_wds(&mut out, &self.withdrawals);
        append_receipts(&mut out, &self.deposit_receipts);
        assert(out@ =~= enc_eip6110(m, wm, self.excess_data_gas@, rm));
        out
    }
}

impl ExecutionPayload {
    /// Wire form of the payload, in its own variant's schema; the caller
    /// keeps the whole encoding inside the 32-bit offset space. A
    /// fourth-upgrade payload must carry well-formed withdrawal addresses.
    pub fn as_ssz_bytes(&self) -> (r: Vec<u8>)
        requires
            common_fixed_wf(crate::payload::model_common(self@)),
            enc_payload(self@).len() < 0x1_0000_0000,
            self@ matches PayloadModel::Deneb { excess_data_gas, .. } ==> excess_data_gas.len()
                == 32,
            self@ matches PayloadModel::Eip6110 { withdrawals, excess_data_gas, .. }
                ==> wds_wf(withdrawals) && excess_data_gas.len() == 32,
        ensures
            r@ == enc_payload(self@),
    {
        match self {
            ExecutionPayload::Merge(p) => p.as_ssz_bytes(),
            ExecutionPayload::Capella(p) => p.as_ssz_bytes(),
            ExecutionPayload::Deneb(p) => p.as_ssz_bytes(),
            ExecutionPayload::Eip6110(p) => p.as_ssz_bytes(),
        }
    }
}


/// Decodes a transaction list from its wire region.
pub fn decode_txs(bytes: &Vec<u8>, max_count: usize, max_len: usize) -> (r: Option<Vec<Vec<u8>>>)
    ensures
        match r {
            Some(v) => dec_txs(bytes@, max_count as int, max_len as int) == Some(
                v@.map_values(|t: Vec<u8>| t@),
            ),
            None => dec_txs(bytes@, max_count as int, max_len as int) is None,
        },
{
    if bytes.len() == 0 {
        let empty: Vec<Vec<u8>> = Vec::new();
        assert(empty@.map_values(|t: Vec<u8>| t@) =~= Seq::<Seq<u8>>::empty());
        return Some(empty);
    }
    if bytes.len() < 4 {
        return None;
    }
    let first32 = read_u32_le(bytes.as_slice(), 0);
    let first = first32 as usize;
    if first % 4 != 0 || first == 0 {
        return None;
    }
    let n = first / 4;
    if n > max_count || first > bytes.len() {
        return None;
    }
    proof {
        let f = first as int;
        assert(4 * (f / 4) == f) by (nonlinear_arith)
            requires
                f % 4 == 0,
                f >= 0,
        ;
    }
    let mut acc: Vec<Vec<u8>> = Vec::new();
    let mut i: usize = 0;
    let mut prev: usize = first;
    loop
        invariant
            bytes@.len() >= 4,
            bytes@.len() <= usize::MAX,
            0 <= i <= n,
            n <= max_count,
            prev <= bytes@.len(),
            4 * n <= bytes@.len(),
            dec_txs(bytes@, max_count as int, max_len as int) == match dec_txs_from(
                bytes@,
                n as int,
                i as int,
                prev as int,
                max_len as int,
            ) {
                Some(rest) => Some(acc@.map_values(|t: Vec<u8>| t@) + rest),
                None => None::<Seq<Seq<u8>>>,
            },
        ensures
            match dec_txs(bytes@, max_count as int, max_len as int) {
                Some(m) => i == n && prev == bytes@.len() && m == acc@.map_values(
                    |t: Vec<u8>| t@,
                ),
                None => false,
            } || dec_txs(bytes@, max_count as int, max_len as int) is None,
        decreases n - i,
    {
        if i >= n {
            if prev == bytes.len() {
                assert(acc@.map_values(|t: Vec<u8>| t@) + Seq::<Seq<u8>>::empty() =~= acc@
                    .map_values(|t: Vec<u8>| t@));
                break ;
            }
            return None;
        }
        let next: usize = if i == n - 1 {
            bytes.len()
        } else {
            let v = read_u32_le(bytes.as_slice(), 4 * (i + 1));
            v as usize
        };
        if next < prev || next > bytes.len() {
            return None;
        }
        if next - prev > max_len {
            return None;
        }
        let elem = copy_range(bytes.as_slice(), prev, next);
        let ghost acc_old = acc@.map_values(|t: Vec<u8>| t@);
        acc.push(elem);
        proof {
            assert(acc@.map_values(|t: Vec<u8>| t@) =~= acc_old + seq![
                bytes@.subrange(prev as int, next as int),
            ]);
            assert forall|rest: Seq<Seq<u8>>|
                (acc_old + seq![bytes@.subrange(prev as int, next as int)]) + rest =~= acc_old + (
            seq![bytes@.subrange(prev as int, next as int)] + rest) by {}
        }
        i = i + 1;
        prev = next;
    }
    if i == n && prev == bytes.len() {
        Some(acc)
    } else {
        None
    }
}

/// Decodes a withdrawal list from its wire region.
pub fn decode_wds(bytes: &Vec<u8>, max_count: usize) -> (r: Option<Vec<Withdrawal>>)
    ensures
        match r {
            Some(v) => dec_wds(bytes@, max_count as int) == Some(
                v@.map_values(|w: Withdrawal| w@),
            ),
            None => dec_wds(bytes@, max_count as int) is None,
        },
{
    if bytes.len() % 44 != 0 {
        return None;
    }
    let n = bytes.len() / 44;
    if n > max_count {
        return None;
    }
    proof {
        let l = bytes@.len() as int;
        assert(44 * (l / 44) == l) by (nonlinear_arith)
            requires
                l % 44 == 0,
                l >= 0,
        ;
    }
    let mut acc: Vec<Withdrawal> = Vec::new();
    let mut i: usize = 0;
    while i < n
        invariant
            bytes@.len() == 44 * n,
            bytes@.len() <= usize::MAX,
            0 <= i <= n,
            acc@.map_values(|w: Withdrawal| w@) =~= dec_wds_seq_prefix(bytes@, i as int),
        decreases n - i,
    {
        let base = 44 * i;
        let index = read_u64_le(bytes.as_slice(), base);
        let validator_index = read_u64_le(bytes.as_slice(), base + 8);
        let address = copy_range(bytes.as_slice(), base + 16, base + 36);
        let amount = read_u64_le(bytes.as_slice(), base + 36);
        let w = Withdrawal { index, validator_index, address, amount };
        proof {
            let sub = bytes@.subrange(44 * i, 44 * (i + 1));
            assert(sub.subrange(0, 8) =~= bytes@.subrange(44 * i, 44 * i + 8));
            assert(sub.subrange(8, 16) =~= bytes@.subrange(44 * i + 8, 44 * i + 16));
            assert(sub.subrange(16, 36) =~= bytes@.subrange(44 * i + 16, 44 * i + 36));
            assert(sub.subrange(36, 44) =~= bytes@.subrange(44 * i + 36, 44 * i + 44));
            assert(w@ == dec_withdrawal(sub));
        }
        let ghost acc_old = acc@.map_values(|w: Withdrawal| w@);
        acc.push(w);
        proof {
            assert(acc@.map_values(|w: Withdrawal| w@) =~= acc_old + seq![
                dec_withdrawal(bytes@.subrange(44 * i, 44 * (i + 1))),
            ]);
        }
        i = i + 1;
    }
    proof {
        lemma_dec_wds_prefix_suffix(bytes@, 0, n as int);
        assert(Seq::<WithdrawalModel>::empty() + dec_wds_seq(bytes@, 0, n as int) =~= dec_wds_seq(
            bytes@,
            0,
            n as int,
        ));
    }
    Some(acc)
}

/// The first `i` withdrawals read back from the wire region.
pub open spec fn dec_wds_seq_prefix(bytes: Seq<u8>, i: int) -> Seq<WithdrawalModel>
    decreases i,
{
    if i <= 0 {
        Seq::empty()
    } else {
        dec_wds_seq_prefix(bytes, i - 1) + seq![
            dec_withdrawal(bytes.subrange(44 * (i - 1), 44 * i)),
        ]
    }
}

proof fn lemma_dec_wds_prefix_suffix(bytes: Seq<u8>, i: int, n: int)
    requires
        0 <= i <= n,
    ensures
        dec_wds_seq_prefix(bytes, i) + dec_wds_seq(bytes, i, n) == dec_wds_seq_prefix(bytes, n),
    decreases n - i,
{
    if i == n {
        assert(dec_wds_seq_prefix(bytes, i) + Seq::<WithdrawalModel>::empty() =~= dec_wds_seq_prefix(
            bytes,
            i,
        ));
    } else {
        lemma_dec_wds_prefix_suffix(bytes, i + 1, n);
        assert(dec_wds_seq_prefix(bytes, i + 1) =~= dec_wds_seq_prefix(bytes, i) + seq![
            dec_withdrawal(bytes.subrange(44 * i, 44 * (i + 1))),
        ]);
        assert(dec_wds_seq_prefix(bytes, i) + (seq![
            dec_withdrawal(bytes.subrange(44 * i, 44 * (i + 1))),
        ] + dec_wds_seq(bytes, i + 1, n)) =~= (dec_wds_seq_prefix(bytes, i) + seq![
            dec_withdrawal(bytes.subrange(44 * i, 44 * (i + 1))),
        ]) + dec_wds_seq(bytes, i + 1, n));
    }
}

/// The first `i` deposit receipts read back from the wire region.
pub open spec fn dec_receipts_seq_prefix(bytes: Seq<u8>, i: int) -> Seq<DepositReceiptModel>
    decreases i,
{
    if i <= 0 {
        Seq::empty()
    } else {
        dec_receipts_seq_prefix(bytes, i - 1) + seq![
            dec_receipt(bytes.subrange(192 * (i - 1), 192 * i)),
        ]
    }
}

proof fn lemma_dec_receipts_prefix_suffix(bytes: Seq<u8>, i: int, n: int)
    requires
        0 <= i <= n,
    ensures
        dec_receipts_seq_prefix(bytes, i) + dec_receipts_seq(bytes, i, n)
            == dec_receipts_seq_prefix(bytes, n),
    decreases n - i,
{
    if i == n {
        assert(dec_receipts_seq_prefix(bytes, i) + Seq::<DepositReceiptModel>::empty()
            =~= dec_receipts_seq_prefix(bytes, i));
    } else {
        lemma_dec_receipts_prefix_suffix(bytes, i + 1, n);
        assert(dec_receipts_seq_prefix(bytes, i + 1) =~= dec_receipts_seq_prefix(bytes, i) + seq![
            dec_receipt(bytes.subrange(192 * i, 192 * (i + 1))),
        ]);
        assert(dec_receipts_seq_prefix(bytes, i) + (seq![
            dec_receipt(bytes.subrange(192 * i, 192 * (i + 1))),
        ] + dec_receipts_seq(bytes, i + 1, n)) =~= (dec_receipts_seq_prefix(bytes, i) + seq![
            dec_receipt(bytes.subrange(192 * i, 192 * (i + 1))),
        ]) + dec_receipts_seq(bytes, i + 1, n));
    }
}

/// Decodes a deposit-receipt list from its wire region.
pub fn decode_receipts(bytes: &Vec<u8>, max_count: usize) -> (r: Option<Vec<DepositReceipt>>)
    ensures
        match r {
            Some(v) => dec_receipts(bytes@, max_count as int) == Some(
                v@.map_values(|x: DepositReceipt| x@),
            ),
            None => dec_receipts(bytes@, max_count as int) is None,
        },
{
    if bytes.len() % 192 != 0 {
        return None;
    }
    let n = bytes.len() / 192;
    if n > max_count {
        return None;
    }
    proof {
        let l = bytes@.len() as int;
        assert(192 * (l / 192) == l) by (nonlinear_arith)
            requires
                l % 192 == 0,
                l >= 0,
        ;
    }
    let mut acc: Vec<DepositReceipt> = Vec::new();
    let mut i: usize = 0;
    while i < n
        invariant
            bytes@.len() == 192 * n,
            bytes@.len() <= usize::MAX,
            0 <= i <= n,
            acc@.map_values(|x: DepositReceipt| x@) =~= dec_receipts_seq_prefix(bytes@, i as int),
        decreases n - i,
    {
        let base = 192 * i;
        let pubkey = copy_range(bytes.as_slice(), base, base + 48);
        let withdrawal_credentials = copy_range(bytes.as_slice(), base + 48, base + 80);
        let amount = read_u64_le(bytes.as_slice(), base + 80);
        let signature = copy_range(bytes.as_slice(), base + 88, base + 184);
        let index = read_u64_le(bytes.as_slice(), base + 184);
        let x = DepositReceipt { pubkey, withdrawal_credentials, amount, signature, index };
        proof {
            let sub = bytes@.subrange(192 * i, 192 * (i + 1));
            assert(sub.subrange(0, 48) =~= bytes@.subrange(192 * i, 192 * i + 48));
            assert(sub.subrange(48, 80) =~= bytes@.subrange(192 * i + 48, 192 * i + 80));
            assert(sub.subrange(80, 88) =~= bytes@.subrange(192 * i + 80, 192 * i + 88));
            assert(sub.subrange(88, 184) =~= bytes@.subrange(192 * i + 88, 192 * i + 184));
            assert(sub.subrange(184, 192) =~= bytes@.subrange(192 * i + 184, 192 * i + 192));
            assert(x@ == dec_receipt(sub));
        }
        let ghost acc_old = acc@.map_values(|x: DepositReceipt| x@);
        acc.push(x);
        proof {
            assert(acc@.map_values(|x: DepositReceipt| x@) =~= acc_old + seq![
                dec_receipt(bytes@.subrange(192 * i, 192 * (i + 1))),
            ]);
        }
        i = i + 1;
    }
    proof {
        lemma_dec_receipts_prefix_suffix(bytes@, 0, n as int);
        assert(Seq::<DepositReceiptModel>::empty() + dec_receipts_seq(bytes@, 0, n as int)
            =~= dec_receipts_seq(bytes@, 0, n as int));
    }
    Some(acc)
}


/// Reads the shared prefix fields from wire bytes, given the two variable
/// regions already decoded.
fn build_common(bytes: &[u8], lb: usize, extra_data: Vec<u8>, transactions: Vec<Vec<u8>>) -> (c:
    PayloadCommon)
    requires
        252 + lb <= bytes@.len(),
        252 + lb <= usize::MAX,
    ensures
        c@ == dec_prefix_fields(
            bytes@,
            lb as int,
            extra_data@,
            transactions@.map_values(|t: Vec<u8>| t@),
        ),
{
    let parent_hash = copy_range(bytes, 0, 32);
    let fee_recipient = copy_range(bytes, 32, 52);
    let state_root = copy_range(bytes, 52, 84);
    let receipts_root = copy_range(bytes, 84, 116);
    let logs_bloom = copy_range(bytes, 116, 116 + lb);
    let prev_randao = copy_range(bytes, 116 + lb, 148 + lb);
    let block_number = read_u64_le(bytes, 148 + lb);
    let gas_limit = read_u64_le(bytes, 156 + lb);
    let gas_used = read_u64_le(bytes, 164 + lb);
    let timestamp = read_u64_le(bytes, 172 + lb);
    let base_fee_per_gas = copy_range(bytes, 184 + lb, 216 + lb);
    let block_hash = copy_range(bytes, 216 + lb, 248 + lb);
    PayloadCommon {
        parent_hash,
        fee_recipient,
        state_root,
        receipts_root,
        logs_bloom,
        prev_randao,
        block_number,
        gas_limit,
        gas_used,
        timestamp,
        extra_data,
        base_fee_per_gas,
        block_hash,
        transactions,
    }
}

impl ExecutionPayloadMerge {
    /// Decodes a first-upgrade payload from wire bytes.
    pub fn from_ssz_bytes(bytes: &[u8], bounds: &PayloadBounds) -> (r: Option<
        ExecutionPayloadMerge,
    >)
        ensures
            match r {
                Some(p) => dec_merge(bytes@, *bounds) == Some(p.common@),
                None => dec_merge(bytes@, *bounds) is None,
            },
    {
        let lb = bounds.bytes_per_logs_bloom;
        let fixed = match lb.checked_add(252) {
            Some(f) => f,
            None => {
                return None;
            },
        };
        if bytes.len() < fixed {
            return None;
        }
        let o_extra = read_u32_le(bytes, 180 + lb) as usize;
        let o_tx = read_u32_le(bytes, fixed - 4) as usize;
        if o_extra != fixed || o_tx < o_extra || o_tx > bytes.len() {
            return None;
        }
        if o_tx - o_extra > bounds.max_extra_data_bytes {
            return None;
        }
        let extra_data = copy_range(bytes, o_extra, o_tx);
        let tx_region = copy_range(bytes, o_tx, bytes.len());
        let transactions = match decode_txs(
            &tx_region,
            bounds.max_transactions_per_payload,
            bounds.max_bytes_per_transaction,
        ) {
            Some(t) => t,
            None => {
                return None;
            },
        };
        Some(ExecutionPayloadMerge { common: build_common(bytes, lb, extra_data, transactions) })
    }
}

impl ExecutionPayloadCapella {
    /// Decodes a second-upgrade payload from wire bytes.
    pub fn from_ssz_bytes(bytes: &[u8], bounds: &PayloadBounds) -> (r: Option<
        ExecutionPayloadCapella,
    >)
        ensures
            match r {
                Some(p) => dec_capella(bytes@, *bounds) == Some(
                    (p.common@, p.withdrawals@.map_values(|w: Withdrawal| w@)),
                ),
                None => dec_capella(bytes@, *bounds) is None,
            },
    {
        let lb = bounds.bytes_per_logs_bloom;
        let fixed = match lb.checked_add(256) {
            Some(f) => f,
            None => {
                return None;
            },
        };
        if bytes.len() < fixed {
            return None;
        }
        let o_extra = read_u32_le(bytes, 180 + lb) as usize;
        let o_tx = read_u32_le(bytes, 248 + lb) as usize;
        let o_wd = read_u32_le(bytes, 252 + lb) as usize;
        if o_extra != fixed || o_tx < o_extra || o_wd < o_tx || o_wd > bytes.len() {
            return None;
        }
        if o_tx - o_extra > bounds.max_extra_data_bytes {
            return None;
        }
        let extra_data = copy_range(bytes, o_extra, o_tx);
        let tx_region = copy_range(bytes, o_tx, o_wd);
        let transactions = match decode_txs(
            &tx_region,
            bounds.max_transactions_per_payload,
            bounds.max_bytes_per_transaction,
        ) {
            Some(t) => t,
            None => {
                return None;
            },
        };
        let wd_region = copy_range(bytes, o_wd, bytes.len());
        let withdrawals = match decode_wds(&wd_region, bounds.max_withdrawals_per_payload) {
            Some(w) => w,
            None => {
                return None;
            },
        };
        Some(
            ExecutionPayloadCapella {
                common: build_common(bytes, lb, extra_data, transactions),
                withdrawals,
            },
        )
    }
}

impl ExecutionPayloadDeneb {
    /// Decodes a third-upgrade payload from wire bytes.
    pub fn from_ssz_bytes(bytes: &[u8], bounds: &PayloadBounds) -> (r: Option<
        ExecutionPayloadDeneb,
    >)
        ensures
            match r {
                Some(p) => dec_deneb(bytes@, *bounds) == Some(
                    (p.common@, p.withdrawals@.map_values(|w: Withdrawal| w@), p.excess_data_gas@),
                ),
                None => dec_deneb(bytes@, *bounds) is None,
            },
    {
        let lb = bounds.bytes_per_logs_bloom;
        let fixed = match lb.checked_add(288) {
            Some(f) => f,
            None => {
                return None;
            },
        };
        if bytes.len() < fixed {
            return None;
        }
        let o_extra = read_u32_le(bytes, 180 + lb) as usize;
        let o_tx = read_u32_le(bytes, 248 + lb) as usize;
        let o_wd = read_u32_le(bytes, 252 + lb) as usize;
        if o_extra != fixed || o_tx < o_extra || o_wd < o_tx || o_wd > bytes.len() {
            return None;
        }
        if o_tx - o_extra > bounds.max_extra_data_bytes {
            return None;
        }
        let excess_data_gas = copy_range(bytes, 256 + lb, 288 + lb);
        let extra_data = copy_range(bytes, o_extra, o_tx);
        let tx_region = copy_range(bytes, o_tx, o_wd);
        let transactions = match decode_txs(
            &tx_region,
            bounds.max_transactions_per_payload,
            bounds.max_bytes_per_transaction,
        ) {
            Some(t) => t,
            None => {
                return None;
            },
        };
        let wd_region = copy_range(bytes, o_wd, bytes.len());
        let withdrawals = match decode_wds(&wd_region, bounds.max_withdrawals_per_payload) {
            Some(w) => w,
            None => {
                return None;
            },
        };
        Some(
            ExecutionPayloadDeneb {
                common: build_common(bytes, lb, extra_data, transactions),
                withdrawals,
                excess_data_gas,
            },
        )
    }
}

impl ExecutionPayloadEip6110 {
    /// Decodes a fourth-upgrade payload from wire bytes.
    pub fn from_ssz_bytes(bytes: &[u8], bounds: &PayloadBounds) -> (r: Option<
        ExecutionPayloadEip6110,
    >)
        ensures
            match r {
                Some(p) => dec_eip6110(bytes@, *bounds) == Some(
                    (
                        p.common@,
                        p.withdrawals@.map_values(|w: Withdrawal| w@),
                        p.excess_data_gas@,
                        p.deposit_receipts@.map_values(|x: DepositReceipt| x@),
                    ),
                ),
                None => dec_eip6110(bytes@, *bounds) is None,
            },
    {
        let lb = bounds.bytes_per_logs_bloom;
        let fixed = match lb.checked_add(292) {
            Some(f) => f,
            None => {
                return None;
            },
        };
        if bytes.len() < fixed {
            return None;
        }
        let o_extra = read_u32_le(bytes, 180 + lb) as usize;
        let o_tx = read_u32_le(bytes, 248 + lb) as usize;
        let o_wd = read_u32_le(bytes, 252 + lb) as usize;
        let o_rc = read_u32_le(bytes, 288 + lb) as usize;
        if o_extra != fixed || o_tx < o_extra || o_wd < o_tx || o_rc < o_wd || o_rc
            > bytes.len() {
            return None;
        }
        if o_tx - o_extra > bounds.max_extra_data_bytes {
            return None;
        }
        let excess_data_gas = copy_range(bytes, 256 + lb, 288 + lb);
        let extra_data = copy_range(bytes, o_extra, o_tx);
        let tx_region = copy_range(bytes, o_tx, o_wd);
        let transactions = match decode_txs(
            &tx_region,
            bounds.max_transactions_per_payload,
            bounds.max_bytes_per_transaction,
        ) {
            Some(t) => t,
            None => {
                return None;
            },
        };
        let wd_region = copy_range(bytes, o_wd, o_rc);
        let withdrawals = match decode_wds(&wd_region, bounds.max_withdrawals_per_payload) {
            Some(w) => w,
            None => {
                return None;
            },
        };
        let rc_region = copy_range(bytes, o_rc, bytes.len());
        let deposit_receipts = match decode_receipts(
            &rc_region,
            bounds.max_deposit_receipts_per_payload,
        ) {
            Some(x) => x,
            None => {
                return None;
            },
        };
        Some(
            ExecutionPayloadEip6110 {
                common: build_common(bytes, lb, extra_data, transactions),
                withdrawals,
                excess_data_gas,
                deposit_receipts,
            },
        )
    }
}

impl ExecutionPayload {
    /// Decodes a payload from wire bytes under the fork tag the caller
    /// supplies out-of-band: the two forks that predate execution payloads
    /// are `UnsupportedFork`; malformed bytes of a supported fork are a
    /// `DecodeError`.
    pub fn from_ssz_bytes(bytes: &[u8], fork_name: ForkName, bounds: &PayloadBounds) -> (r: Result<
        ExecutionPayload,
        PayloadError,
    >)
        ensures
            match r {
                Ok(p) => spec_decode_payload(bytes@, fork_name, *bounds) == Ok::<
                    PayloadModel,
                    PayloadError,
                >(p@),
                Err(e) => spec_decode_payload(bytes@, fork_name, *bounds) == Err::<
                    PayloadModel,
                    PayloadError,
                >(e),
            },
    {
        match fork_name {
            ForkName::Base => Err(PayloadError::UnsupportedFork),
            ForkName::Altair => Err(PayloadError::UnsupportedFork),
            ForkName::Merge => match ExecutionPayloadMerge::from_ssz_bytes(bytes, bounds) {
                Some(p) => Ok(ExecutionPayload::Merge(p)),
                None => Err(PayloadError::DecodeError),
            },
            ForkName::Capella => match ExecutionPayloadCapella::from_ssz_bytes(bytes, bounds) {
                Some(p) => Ok(ExecutionPayload::Capella(p)),
                None => Err(PayloadError::DecodeError),
            },
            ForkName::Deneb => match ExecutionPayloadDeneb::from_ssz_bytes(bytes, bounds) {
                Some(p) => Ok(ExecutionPayload::Deneb(p)),
                None => Err(PayloadError::DecodeError),
            },
            ForkName::Eip6110 => match ExecutionPayloadEip6110::from_ssz_bytes(bytes, bounds) {
                Some(p) => Ok(ExecutionPayload::Eip6110(p)),
                None => Err(PayloadError::DecodeError),
            },
        }
    }
}


proof fn lemma_tx_payload_len_bounded(txs: Seq<Seq<u8>>, i: int, max_len: int)
    requires
        0 <= i <= txs.len(),
        forall|k: int| 0 <= k < txs.len() ==> #[trigger] txs[k].len() <= max_len,
    ensures
        tx_payload_len(txs, i) <= i * max_len,
    decreases i,
{
    if i > 0 {
        lemma_tx_payload_len_bounded(txs, i - 1, max_len);
        assert(txs[i - 1].len() <= max_len);
        assert(tx_payload_len(txs, i) == tx_payload_len(txs, i - 1) + txs[i - 1].len());
        assert((i - 1) * max_len + max_len == i * max_len) by (nonlinear_arith);
    } else {
        assert(i * max_len == 0) by (nonlinear_arith)
            requires
                i == 0,
        ;
    }
}

/// A transaction list's wire form never exceeds its element bounds with the
/// per-element offset overhead.
pub proof fn lemma_enc_txs_len_bounded(txs: Seq<Seq<u8>>, max_count: int, max_len: int)
    requires
        txs_valid(txs, max_count, max_len),
        0 <= max_len,
    ensures
        enc_txs_len(txs) <= max_count * (4 + max_len),
{
    let n = txs.len() as int;
    lemma_tx_payload_len_bounded(txs, n, max_len);
    assert(4 * n + n * max_len == n * (4 + max_len)) by (nonlinear_arith);
    assert(n * (4 + max_len) <= max_count * (4 + max_len)) by (nonlinear_arith)
        requires
            n <= max_count,
            max_len >= 0,
    ;
}

/// The maximum sizes never under-count: every well-formed payload's wire
/// form fits inside its variant's maximum size, for the bounds it is well
/// formed against.
#[verifier::rlimit(100)]
#[verifier::spinoff_prover]
pub proof fn lemma_enc_payload_bounded(p: PayloadModel, b: PayloadBounds)
    requires
        payload_wf(p, b),
    ensures
        p is Merge ==> enc_payload(p).len() <= crate::payload::max_merge_size(b),
        p is Capella ==> enc_payload(p).len() <= crate::payload::max_capella_size(b),
        p is Deneb ==> enc_payload(p).len() <= crate::payload::max_deneb_size(b),
        p is Eip6110 ==> enc_payload(p).len() <= crate::payload::max_eip6110_size(b),
{
    let c = model_common(p);
    let txs = c.transactions;
    lemma_enc_tx_offsets_len(txs, txs.len() as int);
    lemma_enc_tx_payloads_len(txs, txs.len() as int);
    lemma_enc_txs_len_bounded(
        txs,
        b.max_transactions_per_payload as int,
        b.max_bytes_per_transaction as int,
    );
    match p {
        PayloadModel::Merge { common } => {
        },
        PayloadModel::Capella { common, withdrawals } => {
            lemma_enc_wds_len(withdrawals, withdrawals.len() as int);
            assert(44 * withdrawals.len() <= b.max_withdrawals_per_payload * 44)
                by (nonlinear_arith)
                requires
                    withdrawals.len() <= b.max_withdrawals_per_payload,
            ;
        },
        PayloadModel::Deneb { common, withdrawals, excess_data_gas } => {
            lemma_enc_wds_len(withdrawals, withdrawals.len() as int);
            assert(44 * withdrawals.len() <= b.max_withdrawals_per_payload * 44)
                by (nonlinear_arith)
                requires
                    withdrawals.len() <= b.max_withdrawals_per_payload,
            ;
        },
        PayloadModel::Eip6110 { common, withdrawals, excess_data_gas, deposit_receipts } => {
            lemma_enc_wds_len(withdrawals, withdrawals.len() as int);
            lemma_enc_receipts_len(deposit_receipts, deposit_receipts.len() as int);
            assert(44 * withdrawals.len() <= b.max_withdrawals_per_payload * 44)
                by (nonlinear_arith)
                requires
                    withdrawals.len() <= b.max_withdrawals_per_payload,
            ;
            assert(192 * deposit_receipts.len() <= b.max_deposit_receipts_per_payload * 192)
                by (nonlinear_arith)
                requires
                    deposit_receipts.len() <= b.max_deposit_receipts_per_payload,
            ;
        },
    }
}

} // verus!

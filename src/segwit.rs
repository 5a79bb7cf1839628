use vstd::prelude::*;
use vstd::seq_lib::lemma_concat_associative;
use vstd::bytes::{
    spec_u32_to_le_bytes, spec_u64_to_le_bytes, spec_u32_from_le_bytes, spec_u64_from_le_bytes,
    u32_from_le_bytes, u64_from_le_bytes, lemma_auto_spec_u32_to_from_le_bytes,
    lemma_auto_spec_u64_to_from_le_bytes,
};
use crate::encoding::{append_bytes, append_u32_le, append_u64_le, sub_array32, sub_vec};
use crate::hash::{double_sha256, double_sha256_of};
use crate::script::{ScriptPubKey, Witness, items_view, spec_script_bytes};
use crate::varint::{lemma_varint_round_trip, read_varint, spec_read_varint, spec_varint, write_varint};

verus! {

/// A reference to an output of an earlier transaction.
#[derive(Clone, Copy, Debug)]
pub struct OutPoint {
    pub txid: [u8; 32],
    pub vout: u32,
}

/// An input of a witness transaction.
#[derive(Clone, Debug)]
pub struct TxIn {
    pub previous_output: OutPoint,
    pub sequence: u32,
    pub witness: Witness,
}

/// An output of a witness transaction.
#[derive(Clone, Debug)]
pub struct TxOut {
    pub value: u64,
    pub script_pubkey: ScriptPubKey,
}

/// A transaction whose inputs are authorised by witnesses.
#[derive(Clone, Debug)]
pub struct Tx {
    pub version: u32,
    pub inputs: Vec<TxIn>,
    pub outputs: Vec<TxOut>,
    pub lock_time: u32,
}

/// The encoding of an input: outpoint and sequence.
pub open spec fn ser_input(i: TxIn) -> Seq<u8> {
    i.previous_output.txid@ + spec_u32_to_le_bytes(i.previous_output.vout) + spec_u32_to_le_bytes(i.sequence)
}

/// The encoding of a sequence of inputs, in order.
pub open spec fn ser_inputs(s: Seq<TxIn>) -> Seq<u8>
    decreases s.len(),
{
    if s.len() == 0 {
        Seq::empty()
    } else {
        ser_inputs(s.drop_last()) + ser_input(s.last())
    }
}

/// The encoding of an output: value, script length, script.
pub open spec fn ser_output(o: TxOut) -> Seq<u8> {
    let spk = spec_script_bytes(o.script_pubkey);
    spec_u64_to_le_bytes(o.value) + spec_varint(spk.len() as u64) + spk
}

/// The encoding of a sequence of outputs, in order.
pub open spec fn ser_outputs(s: Seq<TxOut>) -> Seq<u8>
    decreases s.len(),
{
    if s.len() == 0 {
        Seq::empty()
    } else {
        ser_outputs(s.drop_last()) + ser_output(s.last())
    }
}

/// The encoding of witness items: each with its length first.
pub open spec fn ser_items(s: Seq<Vec<u8>>) -> Seq<u8>
    decreases s.len(),
{
    if s.len() == 0 {
        Seq::empty()
    } else {
        ser_items(s.drop_last()) + spec_varint(s.last()@.len() as u64) + s.last()@
    }
}

/// The encoding of a witness: item count, then the items.
pub open spec fn ser_witness(w: Witness) -> Seq<u8> {
    spec_varint(w.items@.len() as u64) + ser_items(w.items@)
}

/// The encodings of the inputs' witnesses, in input order.
pub open spec fn ser_witnesses(s: Seq<TxIn>) -> Seq<u8>
    decreases s.len(),
{
    if s.len() == 0 {
        Seq::empty()
    } else {
        ser_witnesses(s.drop_last()) + ser_witness(s.last().witness)
    }
}

/// The wire encoding of a transaction, with or without the witnesses.
pub open spec fn spec_serialize(tx: Tx, include_witness: bool) -> Seq<u8> {
    spec_u32_to_le_bytes(tx.version) + spec_varint(tx.inputs@.len() as u64) + ser_inputs(tx.inputs@)
        + spec_varint(tx.outputs@.len() as u64) + ser_outputs(tx.outputs@) + (if include_witness {
        ser_witnesses(tx.inputs@)
    } else {
        Seq::empty()
    }) + spec_u32_to_le_bytes(tx.lock_time)
}

/// Encodes `tx`: version, inputs, outputs, the witnesses when asked for, lock time.
pub fn serialize(tx: &Tx, include_witness: bool) -> (r: Vec<u8>)
    ensures
        r@ == spec_serialize(*tx, include_witness),
{
    let mut data: Vec<u8> = Vec::new();
    append_u32_le(&mut data, tx.version);
    write_varint(tx.inputs.len() as u64, &mut data);
    let ghost head = data@;
    let mut i: usize = 0;
    assert(tx.inputs@.subrange(0, 0) =~= Seq::<TxIn>::empty());
    assert(data@ =~= head + ser_inputs(tx.inputs@.subrange(0, 0)));
    while i < tx.inputs.len()
        invariant
            i <= tx.inputs@.len(),
            data@ == head + ser_inputs(tx.inputs@.subrange(0, i as int)),
        decreases tx.inputs@.len() - i,
    {
        let txin = &tx.inputs[i];
        append_bytes(&mut data, txin.previous_output.txid.as_slice());
        append_u32_le(&mut data, txin.previous_output.vout);
        append_u32_le(&mut data, txin.sequence);
        assert(tx.inputs@.subrange(0, i + 1).drop_last() =~= tx.inputs@.subrange(0, i as int));
        i = i + 1;
        assert(data@ =~= head + ser_inputs(tx.inputs@.subrange(0, i as int)));
    }
    assert(tx.inputs@.subrange(0, i as int) =~= tx.inputs@);
    write_varint(tx.outputs.len() as u64, &mut data);
    let ghost mid = data@;
    let mut j: usize = 0;
    assert(tx.outputs@.subrange(0, 0) =~= Seq::<TxOut>::empty());
    assert(data@ =~= mid + ser_outputs(tx.outputs@.subrange(0, 0)));
    while j < tx.outputs.len()
        invariant
            j <= tx.outputs@.len(),
            data@ == mid + ser_outputs(tx.outputs@.subrange(0, j as int)),
        decreases tx.outputs@.len() - j,
    {
        let txout = &tx.outputs[j];
        append_u64_le(&mut data, txout.value);
        let spk = txout.script_pubkey.to_bytes();
        write_varint(spk.len() as u64, &mut data);
        append_bytes(&mut data, spk.as_slice());
        assert(tx.outputs@.subrange(0, j + 1).drop_last() =~= tx.outputs@.subrange(0, j as int));
        j = j + 1;
        assert(data@ =~= mid + ser_outputs(tx.outputs@.subrange(0, j as int)));
    }
    assert(tx.outputs@.subrange(0, j as int) =~= tx.outputs@);
    let ghost before_witness = data@;
    if include_witness {
        let mut k: usize = 0;
        assert(data@ =~= before_witness + ser_witnesses(tx.inputs@.subrange(0, 0)));
        while k < tx.inputs.len()
            invariant
                k <= tx.inputs@.len(),
                data@ == before_witness + ser_witnesses(tx.inputs@.subrange(0, k as int)),
            decreases tx.inputs@.len() - k,
        {
            let items = &tx.inputs[k].witness.items;
            let ghost wstart = data@;
            write_varint(items.len() as u64, &mut data);
            let ghost istart = data@;
            let mut m: usize = 0;
            assert(items@.subrange(0, 0) =~= Seq::<Vec<u8>>::empty());
            assert(data@ =~= istart + ser_items(items@.subrange(0, 0)));
            while m < items.len()
                invariant
                    m <= items@.len(),
                    data@ == istart + ser_items(items@.subrange(0, m as int)),
                decreases items@.len() - m,
            {
                let item = &items[m];
                write_varint(item.len() as u64, &mut data);
                append_bytes(&mut data, item.as_slice());
                assert(items@.subrange(0, m + 1).drop_last() =~= items@.subrange(0, m as int));
                m = m + 1;
                assert(data@ =~= istart + ser_items(items@.subrange(0, m as int)));
            }
            assert(items@.subrange(0, m as int) =~= items@);
            assert(tx.inputs@.subrange(0, k + 1).drop_last() =~= tx.inputs@.subrange(0, k as int));
            k = k + 1;
            assert(data@ =~= before_witness + ser_witnesses(tx.inputs@.subrange(0, k as int)));
        }
        assert(tx.inputs@.subrange(0, k as int) =~= tx.inputs@);
    }
    append_u32_le(&mut data, tx.lock_time);
    assert(data@ =~= spec_serialize(*tx, include_witness));
    data
}

/// The transaction id: double SHA-256 of the encoding without witnesses.
pub fn txid(tx: &Tx) -> (r: [u8; 32])
    ensures
        r@ == double_sha256_of(spec_serialize(*tx, false)),
{
    let serialized = serialize(tx, false);
    double_sha256(serialized.as_slice())
}

/// The witness transaction id: double SHA-256 of the encoding with witnesses.
pub fn wtxid(tx: &Tx) -> (r: [u8; 32])
    ensures
        r@ == double_sha256_of(spec_serialize(*tx, true)),
{
    let serialized = serialize(tx, true);
    double_sha256(serialized.as_slice())
}

/// An input as read from the wire, without its witness: txid, vout, sequence.
pub type InputView = (Seq<u8>, u32, u32);

/// A transaction as read from the wire: version, inputs, outputs (value and script bytes),
/// the witness items of each input, lock time.
pub type TxView = (u32, Seq<InputView>, Seq<(u64, Seq<u8>)>, Seq<Seq<Seq<u8>>>, u32);

/// The wire fields of an input.
pub open spec fn input_view(i: TxIn) -> InputView {
    (i.previous_output.txid@, i.previous_output.vout, i.sequence)
}

/// The value and script bytes of an output.
pub open spec fn output_view(o: TxOut) -> (u64, Seq<u8>) {
    (o.value, spec_script_bytes(o.script_pubkey))
}

/// The wire fields of a transaction.
pub open spec fn tx_view(tx: Tx) -> TxView {
    (
        tx.version,
        tx.inputs@.map_values(|i: TxIn| input_view(i)),
        tx.outputs@.map_values(|o: TxOut| output_view(o)),
        tx.inputs@.map_values(|i: TxIn| items_view(i.witness.items@)),
        tx.lock_time,
    )
}

/// Whether script bytes are one of the recognised templates.
pub open spec fn recognized_script(b: Seq<u8>) -> bool {
    ||| b.len() == 22 && b[0] == 0x00u8 && b[1] == 0x14u8
    ||| b.len() == 34 && b[0] == 0x00u8 && b[1] == 0x20u8
    ||| b.len() == 33 && b[0] == 0x51u8
}

/// Reading four little-endian bytes at `p`.
pub open spec fn parse_u32(d: Seq<u8>, p: int) -> Option<(u32, int)> {
    if 0 <= p && p + 4 <= d.len() {
        Some((spec_u32_from_le_bytes(d.subrange(p, p + 4)), p + 4))
    } else {
        None
    }
}

/// Reading an input at `p`: txid, vout, sequence.
pub open spec fn parse_input(d: Seq<u8>, p: int) -> Option<(InputView, int)> {
    if 0 <= p && p + 40 <= d.len() {
        Some((
            (
                d.subrange(p, p + 32),
                spec_u32_from_le_bytes(d.subrange(p + 32, p + 36)),
                spec_u32_from_le_bytes(d.subrange(p + 36, p + 40)),
            ),
            p + 40,
        ))
    } else {
        None
    }
}

/// Reading `n` inputs from position `p`.
pub open spec fn parse_inputs(d: Seq<u8>, p: int, n: nat) -> Option<(Seq<InputView>, int)>
    decreases n,
{
    if n == 0 {
        Some((Seq::empty(), p))
    } else {
        match parse_inputs(d, p, (n - 1) as nat) {
            Some((s, q)) => match parse_input(d, q) {
                Some((i, r)) => Some((s.push(i), r)),
                None => None,
            },
            None => None,
        }
    }
}

/// Reading an output at `p`: value, script length, then recognised script bytes.
pub open spec fn parse_output(d: Seq<u8>, p: int) -> Option<((u64, Seq<u8>), int)> {
    if 0 <= p && p + 8 <= d.len() {
        let value = spec_u64_from_le_bytes(d.subrange(p, p + 8));
        match spec_read_varint(d, p + 8) {
            Some((len, q)) => if len <= d.len() - q && recognized_script(d.subrange(q, q + len)) {
                Some(((value, d.subrange(q, q + len)), q + len))
            } else {
                None
            },
            None => None,
        }
    } else {
        None
    }
}

/// Reading `n` outputs from position `p`.
pub open spec fn parse_outputs(d: Seq<u8>, p: int, n: nat) -> Option<(Seq<(u64, Seq<u8>)>, int)>
    decreases n,
{
    if n == 0 {
        Some((Seq::empty(), p))
    } else {
        match parse_outputs(d, p, (n - 1) as nat) {
            Some((s, q)) => match parse_output(d, q) {
                Some((o, r)) => Some((s.push(o), r)),
                None => None,
            },
            None => None,
        }
    }
}

/// Reading one witness item at `p`: its length, then its bytes.
pub open spec fn parse_item(d: Seq<u8>, p: int) -> Option<(Seq<u8>, int)> {
    match spec_read_varint(d, p) {
        Some((len, q)) => if len <= d.len() - q {
            Some((d.subrange(q, q + len), q + len))
        } else {
            None
        },
        None => None,
    }
}

/// Reading `n` witness items from position `p`.
pub open spec fn parse_items(d: Seq<u8>, p: int, n: nat) -> Option<(Seq<Seq<u8>>, int)>
    decreases n,
{
    if n == 0 {
        Some((Seq::empty(), p))
    } else {
        match parse_items(d, p, (n - 1) as nat) {
            Some((s, q)) => match parse_item(d, q) {
                Some((i, r)) => Some((s.push(i), r)),
                None => None,
            },
            None => None,
        }
    }
}

/// Reading a witness at `p`: item count, then the items.
pub open spec fn parse_witness(d: Seq<u8>, p: int) -> Option<(Seq<Seq<u8>>, int)> {
    match spec_read_varint(d, p) {
        Some((n, q)) => parse_items(d, q, n as nat),
        None => None,
    }
}

/// Reading the witnesses of `n` inputs from position `p`.
pub open spec fn parse_witnesses(d: Seq<u8>, p: int, n: nat) -> Option<(Seq<Seq<Seq<u8>>>, int)>
    decreases n,
{
    if n == 0 {
        Some((Seq::empty(), p))
    } else {
        match parse_witnesses(d, p, (n - 1) as nat) {
            Some((s, q)) => match parse_witness(d, q) {
                Some((w, r)) => Some((s.push(w), r)),
                None => None,
            },
            None => None,
        }
    }
}

/// The transaction that `data` starts with, read with or without witnesses; `None` where
/// the bytes run out or an output script is not a recognised template.
pub open spec fn spec_deserialize(d: Seq<u8>, include_witness: bool) -> Option<TxView> {
    match parse_u32(d, 0) {
        Some((version, q1)) => match spec_read_varint(d, q1) {
            Some((ni, q2)) => match parse_inputs(d, q2, ni as nat) {
                Some((ins, q3)) => match spec_read_varint(d, q3) {
                    Some((no, q4)) => match parse_outputs(d, q4, no as nat) {
                        Some((outs, q5)) => {
                            let wit = if include_witness {
                                parse_witnesses(d, q5, ins.len())
                            } else {
                                Some((Seq::new(ins.len(), |k: int| Seq::<Seq<u8>>::empty()), q5))
                            };
                            match wit {
                                Some((ws, q6)) => match parse_u32(d, q6) {
                                    Some((lock_time, _)) => Some((version, ins, outs, ws, lock_time)),
                                    None => None,
                                },
                                None => None,
                            }
                        },
                        None => None,
                    },
                    None => None,
                },
                None => None,
            },
            None => None,
        },
        None => None,
    }
}

fn read_u32_at(data: &[u8], pos: usize) -> (r: Option<u32>)
    requires
        pos <= data@.len(),
    ensures
        match r {
            Some(v) => parse_u32(data@, pos as int) == Some((v, pos + 4)),
            None => parse_u32(data@, pos as int) is None,
        },
{
    if data.len() - pos < 4 {
        return None;
    }
    let b = sub_vec(data, pos, 4);
    Some(u32_from_le_bytes(b.as_slice()))
}

fn read_input_at(data: &[u8], pos: usize) -> (r: Option<(OutPoint, u32)>)
    requires
        pos <= data@.len(),
    ensures
        match r {
            Some((o, sequence)) => pos + 40 <= data@.len() && parse_input(data@, pos as int) == Some(
                ((o.txid@, o.vout, sequence), pos + 40),
            ),
            None => parse_input(data@, pos as int) is None,
        },
{
    if data.len() - pos < 40 {
        return None;
    }
    let txid = sub_array32(data, pos);
    let b = sub_vec(data, pos + 32, 4);
    let vout = u32_from_le_bytes(b.as_slice());
    let c = sub_vec(data, pos + 36, 4);
    let sequence = u32_from_le_bytes(c.as_slice());
    Some((OutPoint { txid, vout }, sequence))
}

fn script_from_bytes(b: Vec<u8>) -> (r: Option<ScriptPubKey>)
    ensures
        match r {
            Some(s) => recognized_script(b@) && spec_script_bytes(s) == b@,
            None => !recognized_script(b@),
        },
{
    let n = b.len();
    if n == 22 && b[0] == 0x00 && b[1] == 0x14 {
        let h = sub_vec(b.as_slice(), 2, 20);
        assert(seq![0x00u8, 0x14u8] + h@ =~= b@);
        Some(ScriptPubKey::P2WPKH(h))
    } else if n == 34 && b[0] == 0x00 && b[1] == 0x20 {
        let h = sub_vec(b.as_slice(), 2, 32);
        assert(seq![0x00u8, 0x20u8] + h@ =~= b@);
        Some(ScriptPubKey::P2WSH(h))
    } else if n == 33 && b[0] == 0x51 {
        let k = sub_vec(b.as_slice(), 1, 32);
        assert(seq![0x51u8] + k@ =~= b@);
        Some(ScriptPubKey::P2TR(k))
    } else {
        None
    }
}

fn read_output_at(data: &[u8], pos: usize) -> (r: Option<(TxOut, usize)>)
    requires
        pos <= data@.len(),
    ensures
        match r {
            Some((o, q)) => q <= data@.len() && parse_output(data@, pos as int) == Some((output_view(o), q as int)),
            None => parse_output(data@, pos as int) is None,
        },
{
    if data.len() - pos < 8 {
        return None;
    }
    let b = sub_vec(data, pos, 8);
    let value = u64_from_le_bytes(b.as_slice());
    let mut p: usize = pos + 8;
    let len = match read_varint(data, &mut p) {
        Ok(l) => l,
        Err(_) => { return None; },
    };
    if len > (data.len() - p) as u64 {
        return None;
    }
    let spk = sub_vec(data, p, len as usize);
    let q = p + len as usize;
    match script_from_bytes(spk) {
        Some(s) => Some((TxOut { value, script_pubkey: s }, q)),
        None => None,
    }
}

fn read_item_at(data: &[u8], pos: usize) -> (r: Option<(Vec<u8>, usize)>)
    requires
        pos <= data@.len(),
    ensures
        match r {
            Some((item, q)) => q <= data@.len() && parse_item(data@, pos as int) == Some((item@, q as int)),
            None => parse_item(data@, pos as int) is None,
        },
{
    let mut p: usize = pos;
    let len = match read_varint(data, &mut p) {
        Ok(l) => l,
        Err(_) => { return None; },
    };
    if len > (data.len() - p) as u64 {
        return None;
    }
    let item = sub_vec(data, p, len as usize);
    Some((item, p + len as usize))
}

fn read_witness_at(data: &[u8], pos: usize) -> (r: Option<(Witness, usize)>)
    requires
        pos <= data@.len(),
    ensures
        match r {
            Some((w, q)) => q <= data@.len() && parse_witness(data@, pos as int) == Some((items_view(w.items@), q as int)),
            None => parse_witness(data@, pos as int) is None,
        },
{
    let mut p: usize = pos;
    let count = match read_varint(data, &mut p) {
        Ok(c) => c,
        Err(_) => { return None; },
    };
    let ghost start = p as int;
    let mut items: Vec<Vec<u8>> = Vec::new();
    let mut k: u64 = 0;
    while k < count
        invariant
            k <= count,
            spec_read_varint(data@, pos as int) == Some((count, start)),
            p <= data@.len(),
            parse_items(data@, start, k as nat) == Some((items_view(items@), p as int)),
        decreases count - k,
    {
        match read_item_at(data, p) {
            Some((item, q)) => {
                let ghost before = items@;
                items.push(item);
                assert(items_view(items@) =~= items_view(before).push(item@));
                p = q;
            },
            None => {
                proof {
                    lemma_items_stop(data@, start, (k + 1) as nat, count as nat);
                }
                return None;
            },
        }
        k = k + 1;
    }
    Some((Witness { items }, p))
}

proof fn lemma_items_stop(d: Seq<u8>, p: int, k: nat, n: nat)
    requires
        k <= n,
        parse_items(d, p, k) is None,
    ensures
        parse_items(d, p, n) is None,
    decreases n - k,
{
    if k < n {
        lemma_items_stop(d, p, k + 1, n);
    }
}

proof fn lemma_inputs_stop(d: Seq<u8>, p: int, k: nat, n: nat)
    requires
        k <= n,
        parse_inputs(d, p, k) is None,
    ensures
        parse_inputs(d, p, n) is None,
    decreases n - k,
{
    if k < n {
        lemma_inputs_stop(d, p, k + 1, n);
    }
}

proof fn lemma_outputs_stop(d: Seq<u8>, p: int, k: nat, n: nat)
    requires
        k <= n,
        parse_outputs(d, p, k) is None,
    ensures
        parse_outputs(d, p, n) is None,
    decreases n - k,
{
    if k < n {
        lemma_outputs_stop(d, p, k + 1, n);
    }
}

proof fn lemma_witnesses_stop(d: Seq<u8>, p: int, k: nat, n: nat)
    requires
        k <= n,
        parse_witnesses(d, p, k) is None,
    ensures
        parse_witnesses(d, p, n) is None,
    decreases n - k,
{
    if k < n {
        lemma_witnesses_stop(d, p, k + 1, n);
    }
}

/// Reads a transaction from the start of `data`, with or without witnesses. Fails where the
/// bytes run out or an output script is not a recognised template.
pub fn deserialize(data: &[u8], include_witness: bool) -> (r: Result<Tx, String>)
    ensures
        match r {
            Ok(tx) => spec_deserialize(data@, include_witness) == Some(tx_view(tx)),
            Err(_) => spec_deserialize(data@, include_witness) is None,
        },
{
    let version = match read_u32_at(data, 0) {
        Some(v) => v,
        None => { return Err("not enough bytes for the version".to_string()); },
    };
    let mut pos: usize = 4;
    let num_inputs = match read_varint(data, &mut pos) {
        Ok(n) => n,
        Err(e) => { return Err(e); },
    };
    let ghost q2 = pos as int;
    let dlen = data.len();
    let mut points: Vec<(OutPoint, u32)> = Vec::new();
    let mut k: u64 = 0;
    while k < num_inputs
        invariant
            k <= num_inputs,
            dlen == data@.len(),
            parse_u32(data@, 0) == Some((version, 4int)),
            spec_read_varint(data@, 4) == Some((num_inputs, q2)),
            pos <= data@.len(),
            parse_inputs(data@, q2, k as nat) == Some((
                points@.map_values(|e: (OutPoint, u32)| (e.0.txid@, e.0.vout, e.1)),
                pos as int,
            )),
        decreases num_inputs - k,
    {
        match read_input_at(data, pos) {
            Some(e) => {
                let ghost before = points@;
                points.push(e);
                assert(points@.map_values(|e: (OutPoint, u32)| (e.0.txid@, e.0.vout, e.1)) =~= before.map_values(
                    |e: (OutPoint, u32)| (e.0.txid@, e.0.vout, e.1),
                ).push((e.0.txid@, e.0.vout, e.1)));
                pos = pos + 40;
            },
            None => {
                proof {
                    lemma_inputs_stop(data@, q2, (k + 1) as nat, num_inputs as nat);
                }
                return Err("not enough bytes for an input".to_string());
            },
        }
        k = k + 1;
    }
    let ghost q3 = pos as int;
    let ghost ins = points@.map_values(|e: (OutPoint, u32)| (e.0.txid@, e.0.vout, e.1));
    assert(parse_inputs(data@, q2, num_inputs as nat) == Some((ins, q3)));
    let num_outputs = match read_varint(data, &mut pos) {
        Ok(n) => n,
        Err(e) => { return Err(e); },
    };
    let ghost q4 = pos as int;

    let mut outputs: Vec<TxOut> = Vec::new();
    let mut j: u64 = 0;
    while j < num_outputs
        invariant
            j <= num_outputs,
            parse_u32(data@, 0) == Some((version, 4int)),
            spec_read_varint(data@, 4) == Some((num_inputs, q2)),
            parse_inputs(data@, q2, num_inputs as nat) == Some((ins, q3)),
            spec_read_varint(data@, q3) == Some((num_outputs, q4)),
            pos <= data@.len(),
            parse_outputs(data@, q4, j as nat) == Some((outputs@.map_values(|o: TxOut| output_view(o)), pos as int)),
        decreases num_outputs - j,
    {
        match read_output_at(data, pos) {
            Some((o, q)) => {
                let ghost before = outputs@;
                outputs.push(o);
                assert(outputs@.map_values(|o: TxOut| output_view(o)) =~= before.map_values(|o: TxOut| output_view(o)).push(output_view(o)));
                pos = q;
            },
            None => {
                proof {
                    lemma_outputs_stop(data@, q4, (j + 1) as nat, num_outputs as nat);
                }
                return Err("not enough bytes for an output, or an unknown script".to_string());
            },
        }
        j = j + 1;
    }
    let ghost q5 = pos as int;
    let ghost outs = outputs@.map_values(|o: TxOut| output_view(o));
    assert(parse_outputs(data@, q4, num_outputs as nat) == Some((outs, q5)));
    let n = points.len();
    let ghost pts = points@.map_values(|e: (OutPoint, u32)| (e.0.txid@, e.0.vout, e.1));
    let mut inputs: Vec<TxIn> = Vec::new();
    let mut m: usize = 0;
    while m < n
        invariant
            m <= n,
            n == points@.len(),
            pts == ins,
            parse_u32(data@, 0) == Some((version, 4int)),
            spec_read_varint(data@, 4) == Some((num_inputs, q2)),
            parse_inputs(data@, q2, num_inputs as nat) == Some((ins, q3)),
            spec_read_varint(data@, q3) == Some((num_outputs, q4)),
            parse_outputs(data@, q4, num_outputs as nat) == Some((outs, q5)),
            outs == outputs@.map_values(|o: TxOut| output_view(o)),
            pts == points@.map_values(|e: (OutPoint, u32)| (e.0.txid@, e.0.vout, e.1)),
            pos <= data@.len(),
            inputs@.len() == m,
            inputs@.map_values(|i: TxIn| input_view(i)) == pts.subrange(0, m as int),
            include_witness ==> parse_witnesses(data@, q5, m as nat) == Some((
                inputs@.map_values(|i: TxIn| items_view(i.witness.items@)),
                pos as int,
            )),
            !include_witness ==> pos == q5 && inputs@.map_values(|i: TxIn| items_view(i.witness.items@))
                == Seq::new(m as nat, |k: int| Seq::<Seq<u8>>::empty()),
        decreases n - m,
    {
        let w = if include_witness {
            match read_witness_at(data, pos) {
                Some((w, q)) => {
                    pos = q;
                    w
                },
                None => {
                    proof {
                        lemma_witnesses_stop(data@, q5, (m + 1) as nat, n as nat);
                    }
                    return Err("not enough bytes for a witness".to_string());
                },
            }
        } else {
            Witness { items: Vec::new() }
        };
        let (o, sequence) = points[m];
        let input = TxIn { previous_output: o, sequence, witness: w };
        let ghost before = inputs@;
        inputs.push(input);
        assert(pts[m as int] == input_view(input));
        assert(inputs@.map_values(|i: TxIn| input_view(i)) =~= pts.subrange(0, m + 1));
        assert(inputs@.map_values(|i: TxIn| items_view(i.witness.items@)) =~= before.map_values(
            |i: TxIn| items_view(i.witness.items@),
        ).push(items_view(input.witness.items@)));
        proof {
            if !include_witness {
                assert(items_view(input.witness.items@) =~= Seq::<Seq<u8>>::empty());
                assert(inputs@.map_values(|i: TxIn| items_view(i.witness.items@)) =~= Seq::new(
                    (m + 1) as nat,
                    |k: int| Seq::<Seq<u8>>::empty(),
                ));
            }
        }
        m = m + 1;
    }
    assert(pts.subrange(0, n as int) =~= pts);
    let lock_time = match read_u32_at(data, pos) {
        Some(v) => v,
        None => { return Err("not enough bytes for the lock time".to_string()); },
    };
    let tx = Tx { version, inputs, outputs, lock_time };
    Ok(tx)
}

/// Whether every output script has the length its template prescribes, and every count and
/// length that the encoding writes as a varint fits in 64 bits.
#[verifier::opaque]
pub open spec fn encodable(tx: Tx) -> bool {
    &&& tx.inputs@.len() <= u64::MAX
    &&& tx.outputs@.len() <= u64::MAX
    &&& forall|k: int| 0 <= k < tx.outputs@.len() ==> recognized_script(
        spec_script_bytes(#[trigger] tx.outputs@[k].script_pubkey),
    )
    &&& forall|k: int| 0 <= k < tx.inputs@.len() ==> items_fit(#[trigger] tx.inputs@[k].witness.items@)
}

/// Whether a witness's item count and item lengths fit in 64 bits.
pub open spec fn items_fit(items: Seq<Vec<u8>>) -> bool {
    &&& items.len() <= u64::MAX
    &&& forall|j: int| 0 <= j < items.len() ==> (#[trigger] items[j])@.len() <= u64::MAX
}

proof fn lemma_parse_inputs(pre: Seq<u8>, s: Seq<TxIn>, post: Seq<u8>)
    ensures
        parse_inputs(pre + ser_inputs(s) + post, pre.len() as int, s.len()) == Some((
            s.map_values(|i: TxIn| input_view(i)),
            (pre.len() + ser_inputs(s).len()) as int,
        )),
    decreases s.len(),
{
    if s.len() == 0 {
        assert(s.map_values(|i: TxIn| input_view(i)) =~= Seq::<InputView>::empty());
    } else {
        let init = s.drop_last();
        let x = s.last();
        let a = ser_inputs(init);
        let b = ser_input(x);
        let d = pre + ser_inputs(s) + post;
        lemma_concat_associative(pre, a, b);
        lemma_concat_associative(pre + a, b, post);
        assert(d == pre + a + (b + post));
        lemma_parse_inputs(pre, init, b + post);
        let q = (pre.len() + a.len()) as int;
        lemma_auto_spec_u32_to_from_le_bytes();
        assert(d.subrange(q, q + 32) =~= x.previous_output.txid@);
        assert(d.subrange(q + 32, q + 36) =~= spec_u32_to_le_bytes(x.previous_output.vout));
        assert(d.subrange(q + 36, q + 40) =~= spec_u32_to_le_bytes(x.sequence));
        assert(s.map_values(|i: TxIn| input_view(i)) =~= init.map_values(|i: TxIn| input_view(i)).push(input_view(x)));
    }
}

proof fn lemma_parse_outputs(pre: Seq<u8>, s: Seq<TxOut>, post: Seq<u8>)
    requires
        forall|k: int| 0 <= k < s.len() ==> recognized_script(spec_script_bytes(#[trigger] s[k].script_pubkey)),
    ensures
        parse_outputs(pre + ser_outputs(s) + post, pre.len() as int, s.len()) == Some((
            s.map_values(|o: TxOut| output_view(o)),
            (pre.len() + ser_outputs(s).len()) as int,
        )),
    decreases s.len(),
{
    if s.len() == 0 {
        assert(s.map_values(|o: TxOut| output_view(o)) =~= Seq::<(u64, Seq<u8>)>::empty());
    } else {
        let init = s.drop_last();
        let x = s.last();
        assert(recognized_script(spec_script_bytes(s[s.len() - 1].script_pubkey)));
        assert forall|k: int| 0 <= k < init.len() implies recognized_script(
            spec_script_bytes(#[trigger] init[k].script_pubkey),
        ) by {
            assert(init[k] == s[k]);
        }
        let a = ser_outputs(init);
        let b = ser_output(x);
        let d = pre + ser_outputs(s) + post;
        lemma_concat_associative(pre, a, b);
        lemma_concat_associative(pre + a, b, post);
        assert(d == pre + a + (b + post));
        lemma_parse_outputs(pre, init, b + post);
        let q = (pre.len() + a.len()) as int;
        let spk = spec_script_bytes(x.script_pubkey);
        let len = spk.len() as u64;
        let value = spec_u64_to_le_bytes(x.value);
        let vl = spec_varint(len);
        // b == value + vl + spk
        lemma_concat_associative(value + vl, spk, post);
        lemma_concat_associative(value, vl, spk + post);
        lemma_concat_associative(pre + a, value, vl + (spk + post));
        lemma_concat_associative(pre + a + value, vl, spk + post);
        assert(d == pre + a + value + vl + (spk + post));
        lemma_auto_spec_u64_to_from_le_bytes();
        assert(d.subrange(q, q + 8) =~= value);
        lemma_varint_round_trip(len, pre + a + value, spk + post);
        let r = q + 8 + vl.len() as int;
        assert(d.subrange(r, r + spk.len() as int) =~= spk);
        assert(s.map_values(|o: TxOut| output_view(o)) =~= init.map_values(|o: TxOut| output_view(o)).push(output_view(x)));
    }
}

proof fn lemma_parse_items(pre: Seq<u8>, s: Seq<Vec<u8>>, post: Seq<u8>)
    requires
        forall|j: int| 0 <= j < s.len() ==> (#[trigger] s[j])@.len() <= u64::MAX,
    ensures
        parse_items(pre + ser_items(s) + post, pre.len() as int, s.len()) == Some((
            items_view(s),
            (pre.len() + ser_items(s).len()) as int,
        )),
    decreases s.len(),
{
    if s.len() == 0 {
        assert(items_view(s) =~= Seq::<Seq<u8>>::empty());
    } else {
        let init = s.drop_last();
        let x = s.last();
        assert(x@.len() <= u64::MAX) by {
            assert(s[s.len() - 1] == x);
        }
        assert forall|j: int| 0 <= j < init.len() implies (#[trigger] init[j])@.len() <= u64::MAX by {
            assert(init[j] == s[j]);
        }
        let a = ser_items(init);
        let vl = spec_varint(x@.len() as u64);
        let d = pre + ser_items(s) + post;
        // ser_items(s) == a + vl + x@
        lemma_concat_associative(pre, a + vl, x@);
        lemma_concat_associative(pre, a, vl);
        lemma_concat_associative(pre + a + vl, x@, post);
        assert(d == pre + a + vl + (x@ + post));
        lemma_concat_associative(pre + a, vl, x@ + post);
        lemma_concat_associative(vl, x@, post);
        assert(d == pre + a + (vl + x@ + post));
        lemma_parse_items(pre, init, vl + x@ + post);
        let q = (pre.len() + a.len()) as int;
        lemma_varint_round_trip(x@.len() as u64, pre + a, x@ + post);
        let r = q + vl.len() as int;
        assert(d.subrange(r, r + x@.len() as int) =~= x@);
        assert(items_view(s) =~= items_view(init).push(x@));
    }
}

proof fn lemma_parse_witnesses(pre: Seq<u8>, s: Seq<TxIn>, post: Seq<u8>)
    requires
        forall|k: int| 0 <= k < s.len() ==> items_fit(#[trigger] s[k].witness.items@),
    ensures
        parse_witnesses(pre + ser_witnesses(s) + post, pre.len() as int, s.len()) == Some((
            s.map_values(|i: TxIn| items_view(i.witness.items@)),
            (pre.len() + ser_witnesses(s).len()) as int,
        )),
    decreases s.len(),
{
    if s.len() == 0 {
        assert(s.map_values(|i: TxIn| items_view(i.witness.items@)) =~= Seq::<Seq<Seq<u8>>>::empty());
    } else {
        let init = s.drop_last();
        let x = s.last();
        let items = x.witness.items@;
        assert(items_fit(items)) by {
            assert(s[s.len() - 1] == x);
        }
        assert forall|k: int| 0 <= k < init.len() implies items_fit(#[trigger] init[k].witness.items@) by {
            assert(init[k] == s[k]);
        }
        let a = ser_witnesses(init);
        let vl = spec_varint(items.len() as u64);
        let b = ser_witness(x.witness);
        let d = pre + ser_witnesses(s) + post;
        lemma_concat_associative(pre, a, b);
        lemma_concat_associative(pre + a, b, post);
        assert(d == pre + a + (b + post));
        lemma_parse_witnesses(pre, init, b + post);
        let q = (pre.len() + a.len()) as int;
        // b == vl + ser_items(items)
        lemma_concat_associative(vl, ser_items(items), post);
        lemma_concat_associative(pre + a, vl, ser_items(items) + post);
        assert(d == pre + a + vl + (ser_items(items) + post));
        lemma_varint_round_trip(items.len() as u64, pre + a, ser_items(items) + post);
        lemma_concat_associative(pre + a + vl, ser_items(items), post);
        lemma_parse_items(pre + a + vl, items, post);
        assert(s.map_values(|i: TxIn| items_view(i.witness.items@)) =~= init.map_values(
            |i: TxIn| items_view(i.witness.items@),
        ).push(items_view(items)));
    }
}

proof fn lemma_deserialize_steps(
    d: Seq<u8>,
    include_witness: bool,
    version: u32,
    n_in: u64,
    ins: Seq<InputView>,
    n_out: u64,
    outs: Seq<(u64, Seq<u8>)>,
    ws: Seq<Seq<Seq<u8>>>,
    lock_time: u32,
    q2: int,
    q3: int,
    q4: int,
    q5: int,
    q6: int,
)
    requires
        parse_u32(d, 0) == Some((version, 4int)),
        spec_read_varint(d, 4) == Some((n_in, q2)),
        parse_inputs(d, q2, n_in as nat) == Some((ins, q3)),
        spec_read_varint(d, q3) == Some((n_out, q4)),
        parse_outputs(d, q4, n_out as nat) == Some((outs, q5)),
        include_witness ==> parse_witnesses(d, q5, ins.len()) == Some((ws, q6)),
        !include_witness ==> q6 == q5,
        parse_u32(d, q6) == Some((lock_time, q6 + 4)),
    ensures
        spec_deserialize(d, include_witness) == Some((
            version,
            ins,
            outs,
            if include_witness {
                ws
            } else {
                Seq::new(ins.len(), |k: int| Seq::<Seq<u8>>::empty())
            },
            lock_time,
        )),
{
}

pub proof fn lemma_deserialize_serialize(tx: Tx, include_witness: bool, rest: Seq<u8>)
    requires
        encodable(tx),
    ensures
        spec_deserialize(spec_serialize(tx, include_witness) + rest, include_witness) == Some((
            tx_view(tx).0,
            tx_view(tx).1,
            tx_view(tx).2,
            if include_witness {
                tx_view(tx).3
            } else {
                Seq::new(tx.inputs@.len(), |k: int| Seq::<Seq<u8>>::empty())
            },
            tx_view(tx).4,
        )),
{
    let ins = tx.inputs@;
    let outs = tx.outputs@;
    let v = spec_u32_to_le_bytes(tx.version);
    let vi = spec_varint(ins.len() as u64);
    let vo = spec_varint(outs.len() as u64);
    let wit = if include_witness { ser_witnesses(ins) } else { Seq::empty() };
    let lt = spec_u32_to_le_bytes(tx.lock_time);
    let t6 = lt + rest;
    let t5 = wit + t6;
    let t4 = ser_outputs(outs) + t5;
    let t3 = vo + t4;
    let t2 = ser_inputs(ins) + t3;
    let t1 = vi + t2;
    let pre2 = v + vi;
    let pre3 = pre2 + ser_inputs(ins);
    let pre4 = pre3 + vo;
    let pre5 = pre4 + ser_outputs(outs);
    let pre6 = pre5 + wit;
    let d = spec_serialize(tx, include_witness) + rest;
    assert(d == pre6 + lt + rest);
    lemma_concat_associative(pre6, lt, rest);
    assert(d == pre6 + t6);
    lemma_concat_associative(pre5, wit, t6);
    assert(d == pre5 + t5);
    lemma_concat_associative(pre4, ser_outputs(outs), t5);
    assert(d == pre4 + t4);
    lemma_concat_associative(pre3, vo, t4);
    assert(d == pre3 + t3);
    lemma_concat_associative(pre2, ser_inputs(ins), t3);
    assert(d == pre2 + t2);
    lemma_concat_associative(v, vi, t2);
    assert(d == v + t1);
    let q2 = pre2.len() as int;
    let q3 = pre3.len() as int;
    let q4 = pre4.len() as int;
    let q5 = pre5.len() as int;
    let q6 = pre6.len() as int;
    assert(parse_u32(d, 0) == Some((tx.version, 4int))) by {
        lemma_auto_spec_u32_to_from_le_bytes();
        assert(d.subrange(0, 4) =~= v);
    }
    assert(v.len() == 4) by {
        lemma_auto_spec_u32_to_from_le_bytes();
    }
    assert(ins.len() <= u64::MAX && outs.len() <= u64::MAX) by {
        reveal(encodable);
    }
    assert(spec_read_varint(d, 4) == Some((ins.len() as u64, q2))) by {
        lemma_varint_round_trip(ins.len() as u64, v, t2);
    }
    assert(parse_inputs(d, q2, ins.len()) == Some((tx_view(tx).1, q3))) by {
        lemma_parse_inputs(pre2, ins, t3);
    }
    assert(spec_read_varint(d, q3) == Some((outs.len() as u64, q4))) by {
        lemma_varint_round_trip(outs.len() as u64, pre3, t4);
    }
    assert(parse_outputs(d, q4, outs.len()) == Some((tx_view(tx).2, q5))) by {
        reveal(encodable);
        lemma_parse_outputs(pre4, outs, t5);
    }
    if include_witness {
        assert(parse_witnesses(d, q5, ins.len()) == Some((tx_view(tx).3, q6))) by {
            reveal(encodable);
            lemma_parse_witnesses(pre5, ins, t6);
        }
    }
    assert(parse_u32(d, q6) == Some((tx.lock_time, q6 + 4))) by {
        lemma_auto_spec_u32_to_from_le_bytes();
        assert(d.subrange(q6, q6 + 4) =~= lt);
    }
    assert(tx_view(tx).1.len() == ins.len());
    lemma_deserialize_steps(
        d,
        include_witness,
        tx.version,
        ins.len() as u64,
        tx_view(tx).1,
        outs.len() as u64,
        tx_view(tx).2,
        tx_view(tx).3,
        tx.lock_time,
        q2,
        q3,
        q4,
        q5,
        q6,
    );
}

} // verus!

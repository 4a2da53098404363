//! The native on-disk container format: a binary serialization of the
//! encrypted records, written before the whole container is encrypted as
//! one blob.
//!
//! Every length is a little-endian `u64` prefix; optional fields carry a
//! one-byte presence tag; the TOTP hash choice is one byte. Parsing is
//! specified as a function of the bytes, and parsing a serialized
//! container is proved to return exactly the records serialized.

use vstd::prelude::*;

use vstd::bytes::{
    lemma_auto_spec_u64_to_from_le_bytes,
    spec_u64_from_le_bytes,
    spec_u64_to_le_bytes,
    u64_from_le_bytes,
    u64_to_le_bytes,
};

use crate::cipher::TotpHash;
use crate::errors::Error;
use crate::vault::{opt_bytes_view, pairs_bytes_view, EncryptedVault, EncryptedVaultView};

verus! {

/// The models of a list of encrypted records.
pub open spec fn records_view(records: Seq<EncryptedVault>) -> Seq<EncryptedVaultView> {
    Seq::new(records.len(), |i: int| records[i]@)
}

/// The encoding of a byte string: its length, then its bytes.
pub open spec fn enc_bytes(data: Seq<u8>) -> Seq<u8> {
    spec_u64_to_le_bytes(data.len() as u64) + data
}

/// The encoding of an optional byte string: a presence tag, then the
/// byte string when present.
pub open spec fn enc_opt(field: Option<Seq<u8>>) -> Seq<u8> {
    match field {
        None => seq![0u8],
        Some(data) => seq![1u8] + enc_bytes(data),
    }
}

/// The one-byte encoding of the TOTP hash choice.
pub open spec fn enc_hash(h: TotpHash) -> Seq<u8> {
    match h {
        TotpHash::Sha1 => seq![0u8],
        TotpHash::Sha256 => seq![1u8],
        TotpHash::Sha512 => seq![2u8],
    }
}

/// The encoding of the custom-field pairs, in order.
pub open spec fn enc_pairs(fields: Seq<(Seq<u8>, Seq<u8>)>) -> Seq<u8>
    decreases fields.len(),
{
    if fields.len() == 0 {
        Seq::<u8>::empty()
    } else {
        enc_bytes(fields[0].0) + enc_bytes(fields[0].1) + enc_pairs(fields.drop_first())
    }
}

/// The encoding of one encrypted record.
pub open spec fn enc_record(ev: EncryptedVaultView) -> Seq<u8> {
    enc_bytes(ev.name) + enc_opt(ev.username) + enc_opt(ev.password) + enc_opt(ev.service)
        + enc_opt(ev.note) + enc_opt(ev.totp_secret) + enc_hash(ev.totp_hash)
        + spec_u64_to_le_bytes(ev.custom_fields.len() as u64) + enc_pairs(ev.custom_fields)
}

/// The encoding of a list of records, in order.
pub open spec fn enc_list(records: Seq<EncryptedVaultView>) -> Seq<u8>
    decreases records.len(),
{
    if records.len() == 0 {
        Seq::<u8>::empty()
    } else {
        enc_record(records[0]) + enc_list(records.drop_first())
    }
}

/// The encoding of the whole container: the record count, then the
/// records.
pub open spec fn enc_container(records: Seq<EncryptedVaultView>) -> Seq<u8> {
    spec_u64_to_le_bytes(records.len() as u64) + enc_list(records)
}

/// Whether a byte string is short enough for its length prefix.
pub open spec fn bytes_wf(data: Seq<u8>) -> bool {
    data.len() <= u64::MAX
}

/// Whether an optional byte string is short enough.
pub open spec fn opt_wf(field: Option<Seq<u8>>) -> bool {
    match field {
        None => true,
        Some(data) => bytes_wf(data),
    }
}

/// Whether every custom-field pair is short enough for its prefixes.
pub open spec fn pairs_wf(fields: Seq<(Seq<u8>, Seq<u8>)>) -> bool {
    forall|i: int|
        0 <= i < fields.len() ==> bytes_wf(#[trigger] fields[i].0) && bytes_wf(fields[i].1)
}

/// Whether every part of a record is short enough for its prefix.
pub open spec fn record_wf(ev: EncryptedVaultView) -> bool {
    &&& bytes_wf(ev.name)
    &&& opt_wf(ev.username)
    &&& opt_wf(ev.password)
    &&& opt_wf(ev.service)
    &&& opt_wf(ev.note)
    &&& opt_wf(ev.totp_secret)
    &&& ev.custom_fields.len() <= u64::MAX
    &&& pairs_wf(ev.custom_fields)
}

/// Whether every record of a container is short enough for its prefixes.
pub open spec fn container_wf(records: Seq<EncryptedVaultView>) -> bool {
    records.len() <= u64::MAX && forall|i: int|
        0 <= i < records.len() ==> record_wf(#[trigger] records[i])
}

/// Parsing a `u64` at a position: the eight little-endian bytes.
pub open spec fn p_u64(b: Seq<u8>, pos: int) -> Option<(u64, int)> {
    if 0 <= pos && pos + 8 <= b.len() {
        Some((spec_u64_from_le_bytes(b.subrange(pos, pos + 8)), pos + 8))
    } else {
        None
    }
}

/// Parsing a length-prefixed byte string at a position.
pub open spec fn p_bytes(b: Seq<u8>, pos: int) -> Option<(Seq<u8>, int)> {
    match p_u64(b, pos) {
        None => None,
        Some((n, p1)) => if p1 + n <= b.len() {
            Some((b.subrange(p1, p1 + n), p1 + n))
        } else {
            None
        },
    }
}

/// Parsing an optional byte string at a position.
pub open spec fn p_opt(b: Seq<u8>, pos: int) -> Option<(Option<Seq<u8>>, int)> {
    if 0 <= pos && pos < b.len() {
        if b[pos] == 0 {
            Some((None, pos + 1))
        } else if b[pos] == 1 {
            match p_bytes(b, pos + 1) {
                None => None,
                Some((data, p1)) => Some((Some(data), p1)),
            }
        } else {
            None
        }
    } else {
        None
    }
}

/// Parsing the TOTP hash choice at a position.
pub open spec fn p_hash(b: Seq<u8>, pos: int) -> Option<(TotpHash, int)> {
    if 0 <= pos && pos < b.len() {
        if b[pos] == 0 {
            Some((TotpHash::Sha1, pos + 1))
        } else if b[pos] == 1 {
            Some((TotpHash::Sha256, pos + 1))
        } else if b[pos] == 2 {
            Some((TotpHash::Sha512, pos + 1))
        } else {
            None
        }
    } else {
        None
    }
}

/// Parsing `n` custom-field pairs at a position.
pub open spec fn p_pairs(b: Seq<u8>, pos: int, n: nat) -> Option<(Seq<(Seq<u8>, Seq<u8>)>, int)>
    decreases n,
{
    if n == 0 {
        Some((Seq::<(Seq<u8>, Seq<u8>)>::empty(), pos))
    } else {
        match p_bytes(b, pos) {
            None => None,
            Some((key, p1)) => match p_bytes(b, p1) {
                None => None,
                Some((value, p2)) => match p_pairs(b, p2, (n - 1) as nat) {
                    None => None,
                    Some((rest, p3)) => Some((seq![(key, value)] + rest, p3)),
                },
            },
        }
    }
}

/// Parsing one encrypted record at a position.
pub open spec fn p_record(b: Seq<u8>, pos: int) -> Option<(EncryptedVaultView, int)> {
    match p_bytes(b, pos) {
        None => None,
        Some((name, p1)) => match p_opt(b, p1) {
            None => None,
            Some((username, p2)) => match p_opt(b, p2) {
                None => None,
                Some((password, p3)) => match p_opt(b, p3) {
                    None => None,
                    Some((service, p4)) => match p_opt(b, p4) {
                        None => None,
                        Some((note, p5)) => match p_opt(b, p5) {
                            None => None,
                            Some((totp_secret, p6)) => match p_hash(b, p6) {
                                None => None,
                                Some((totp_hash, p7)) => match p_u64(b, p7) {
                                    None => None,
                                    Some((n, p8)) => match p_pairs(b, p8, n as nat) {
                                        None => None,
                                        Some((custom_fields, p9)) => Some(
                                            (
                                                EncryptedVaultView {
                                                    name,
                                                    username,
                                                    password,
                                                    service,
                                                    note,
                                                    totp_secret,
                                                    totp_hash,
                                                    custom_fields,
                                                },
                                                p9,
                                            ),
                                        ),
                                    },
                                },
                            },
                        },
                    },
                },
            },
        },
    }
}

/// Parsing `n` records at a position.
pub open spec fn p_list(b: Seq<u8>, pos: int, n: nat) -> Option<(Seq<EncryptedVaultView>, int)>
    decreases n,
{
    if n == 0 {
        Some((Seq::<EncryptedVaultView>::empty(), pos))
    } else {
        match p_record(b, pos) {
            None => None,
            Some((ev, p1)) => match p_list(b, p1, (n - 1) as nat) {
                None => None,
                Some((rest, p2)) => Some((seq![ev] + rest, p2)),
            },
        }
    }
}

/// What parsing a whole container yields: the record count, then exactly
/// that many records, consuming every byte.
pub open spec fn p_container(b: Seq<u8>) -> Option<Seq<EncryptedVaultView>> {
    match p_u64(b, 0) {
        None => None,
        Some((n, p1)) => match p_list(b, p1, n as nat) {
            None => None,
            Some((records, p2)) => if p2 == b.len() {
                Some(records)
            } else {
                None
            },
        },
    }
}

proof fn lemma_p_u64_embed(b: Seq<u8>, pos: int, x: u64)
    requires
        0 <= pos,
        pos + 8 <= b.len(),
        b.subrange(pos, pos + 8) == spec_u64_to_le_bytes(x),
    ensures
        p_u64(b, pos) == Some((x, pos + 8)),
{
    lemma_auto_spec_u64_to_from_le_bytes();
}

proof fn lemma_p_bytes_embed(b: Seq<u8>, pos: int, data: Seq<u8>)
    requires
        0 <= pos,
        bytes_wf(data),
        pos + enc_bytes(data).len() <= b.len(),
        b.subrange(pos, pos + enc_bytes(data).len()) == enc_bytes(data),
    ensures
        enc_bytes(data).len() == 8 + data.len(),
        p_bytes(b, pos) == Some((data, pos + enc_bytes(data).len())),
{
    lemma_auto_spec_u64_to_from_le_bytes();
    let e = enc_bytes(data);
    let n = data.len() as u64;
    assert(e.len() == 8 + data.len());
    assert(b.subrange(pos, pos + 8) =~= e.subrange(0, 8));
    assert(e.subrange(0, 8) =~= spec_u64_to_le_bytes(n));
    lemma_p_u64_embed(b, pos, n);
    assert(b.subrange(pos + 8, pos + 8 + n) =~= e.subrange(8, e.len() as int));
    assert(e.subrange(8, e.len() as int) =~= data);
}

proof fn lemma_p_opt_embed(b: Seq<u8>, pos: int, field: Option<Seq<u8>>)
    requires
        0 <= pos,
        opt_wf(field),
        pos + enc_opt(field).len() <= b.len(),
        b.subrange(pos, pos + enc_opt(field).len()) == enc_opt(field),
    ensures
        p_opt(b, pos) == Some((field, pos + enc_opt(field).len())),
{
    let e = enc_opt(field);
    match field {
        None => {
            assert(b[pos] == e[0]);
        },
        Some(data) => {
            assert(b[pos] == e[0]);
            assert(b.subrange(pos + 1, pos + 1 + enc_bytes(data).len()) =~= e.subrange(
                1,
                e.len() as int,
            ));
            assert(e.subrange(1, e.len() as int) =~= enc_bytes(data));
            lemma_p_bytes_embed(b, pos + 1, data);
        },
    }
}

proof fn lemma_p_hash_embed(b: Seq<u8>, pos: int, h: TotpHash)
    requires
        0 <= pos,
        pos + 1 <= b.len(),
        b.subrange(pos, pos + 1) == enc_hash(h),
    ensures
        p_hash(b, pos) == Some((h, pos + 1)),
{
    assert(b[pos] == enc_hash(h)[0]);
}

proof fn lemma_p_pairs_embed(b: Seq<u8>, pos: int, fields: Seq<(Seq<u8>, Seq<u8>)>)
    requires
        0 <= pos,
        pairs_wf(fields),
        pos + enc_pairs(fields).len() <= b.len(),
        b.subrange(pos, pos + enc_pairs(fields).len()) == enc_pairs(fields),
    ensures
        p_pairs(b, pos, fields.len()) == Some((fields, pos + enc_pairs(fields).len())),
    decreases fields.len(),
{
    if fields.len() == 0 {
        assert(fields =~= Seq::<(Seq<u8>, Seq<u8>)>::empty());
    } else {
        let e = enc_pairs(fields);
        let ek = enc_bytes(fields[0].0);
        let ev = enc_bytes(fields[0].1);
        let rest = fields.drop_first();
        let er = enc_pairs(rest);
        assert(e =~= ek + ev + er);
        assert(b.subrange(pos, pos + ek.len()) =~= e.subrange(0, ek.len() as int));
        assert(e.subrange(0, ek.len() as int) =~= ek);
        lemma_p_bytes_embed(b, pos, fields[0].0);
        let p1 = pos + ek.len();
        assert(b.subrange(p1, p1 + ev.len()) =~= e.subrange(
            ek.len() as int,
            (ek.len() + ev.len()) as int,
        ));
        assert(e.subrange(ek.len() as int, (ek.len() + ev.len()) as int) =~= ev);
        lemma_p_bytes_embed(b, p1, fields[0].1);
        let p2 = p1 + ev.len();
        assert(b.subrange(p2, p2 + er.len()) =~= e.subrange(
            (ek.len() + ev.len()) as int,
            e.len() as int,
        ));
        assert(e.subrange((ek.len() + ev.len()) as int, e.len() as int) =~= er);
        assert forall|i: int|
            0 <= i < rest.len() implies bytes_wf(#[trigger] rest[i].0) && bytes_wf(rest[i].1) by {
            assert(rest[i] == fields[i + 1]);
            assert(bytes_wf(fields[i + 1].0));
            assert(bytes_wf(fields[i + 1].1));
        }
        assert(pairs_wf(rest));
        lemma_p_pairs_embed(b, p2, rest);
        assert(seq![(fields[0].0, fields[0].1)] + rest =~= fields);
    }
}

#[verifier::rlimit(100)]
#[verifier::spinoff_prover]
proof fn lemma_p_record_embed(b: Seq<u8>, pos: int, ev: EncryptedVaultView)
    requires
        0 <= pos,
        record_wf(ev),
        pos + enc_record(ev).len() <= b.len(),
        b.subrange(pos, pos + enc_record(ev).len()) == enc_record(ev),
    ensures
        p_record(b, pos) == Some((ev, pos + enc_record(ev).len())),
{
    lemma_auto_spec_u64_to_from_le_bytes();
    let e = enc_record(ev);
    let e0 = enc_bytes(ev.name);
    let e1 = enc_opt(ev.username);
    let e2 = enc_opt(ev.password);
    let e3 = enc_opt(ev.service);
    let e4 = enc_opt(ev.note);
    let e5 = enc_opt(ev.totp_secret);
    let e6 = enc_hash(ev.totp_hash);
    let e7 = spec_u64_to_le_bytes(ev.custom_fields.len() as u64);
    let e8 = enc_pairs(ev.custom_fields);
    assert(e =~= e0 + e1 + e2 + e3 + e4 + e5 + e6 + e7 + e8);
    let p0 = pos;
    let p1 = p0 + e0.len();
    let p2 = p1 + e1.len();
    let p3 = p2 + e2.len();
    let p4 = p3 + e3.len();
    let p5 = p4 + e4.len();
    let p6 = p5 + e5.len();
    let p7 = p6 + e6.len();
    let p8 = p7 + e7.len();
    let p9 = p8 + e8.len();
    assert(b.subrange(p0, p1) =~= e.subrange(0, e0.len() as int));
    assert(e.subrange(0, e0.len() as int) =~= e0);
    lemma_p_bytes_embed(b, p0, ev.name);
    assert(b.subrange(p1, p2) =~= e.subrange(p1 - pos, p2 - pos));
    assert(e.subrange(p1 - pos, p2 - pos) =~= e1);
    lemma_p_opt_embed(b, p1, ev.username);
    assert(b.subrange(p2, p3) =~= e.subrange(p2 - pos, p3 - pos));
    assert(e.subrange(p2 - pos, p3 - pos) =~= e2);
    lemma_p_opt_embed(b, p2, ev.password);
    assert(b.subrange(p3, p4) =~= e.subrange(p3 - pos, p4 - pos));
    assert(e.subrange(p3 - pos, p4 - pos) =~= e3);
    lemma_p_opt_embed(b, p3, ev.service);
    assert(b.subrange(p4, p5) =~= e.subrange(p4 - pos, p5 - pos));
    assert(e.subrange(p4 - pos, p5 - pos) =~= e4);
    lemma_p_opt_embed(b, p4, ev.note);
    assert(b.subrange(p5, p6) =~= e.subrange(p5 - pos, p6 - pos));
    assert(e.subrange(p5 - pos, p6 - pos) =~= e5);
    lemma_p_opt_embed(b, p5, ev.totp_secret);
    assert(b.subrange(p6, p7) =~= e.subrange(p6 - pos, p7 - pos));
    assert(e.subrange(p6 - pos, p7 - pos) =~= e6);
    lemma_p_hash_embed(b, p6, ev.totp_hash);
    assert(b.subrange(p7, p8) =~= e.subrange(p7 - pos, p8 - pos));
    assert(e.subrange(p7 - pos, p8 - pos) =~= e7);
    lemma_p_u64_embed(b, p7, ev.custom_fields.len() as u64);
    assert(b.subrange(p8, p9) =~= e.subrange(p8 - pos, p9 - pos));
    assert(e.subrange(p8 - pos, p9 - pos) =~= e8);
    lemma_p_pairs_embed(b, p8, ev.custom_fields);
}

proof fn lemma_p_list_embed(b: Seq<u8>, pos: int, records: Seq<EncryptedVaultView>)
    requires
        0 <= pos,
        forall|i: int| 0 <= i < records.len() ==> record_wf(#[trigger] records[i]),
        pos + enc_list(records).len() <= b.len(),
        b.subrange(pos, pos + enc_list(records).len()) == enc_list(records),
    ensures
        p_list(b, pos, records.len()) == Some((records, pos + enc_list(records).len())),
    decreases records.len(),
{
    if records.len() == 0 {
        assert(records =~= Seq::<EncryptedVaultView>::empty());
    } else {
        let e = enc_list(records);
        let e0 = enc_record(records[0]);
        let rest = records.drop_first();
        let er = enc_list(rest);
        assert(e =~= e0 + er);
        assert(b.subrange(pos, pos + e0.len()) =~= e.subrange(0, e0.len() as int));
        assert(e.subrange(0, e0.len() as int) =~= e0);
        lemma_p_record_embed(b, pos, records[0]);
        let p1 = pos + e0.len();
        assert(b.subrange(p1, p1 + er.len()) =~= e.subrange(e0.len() as int, e.len() as int));
        assert(e.subrange(e0.len() as int, e.len() as int) =~= er);
        lemma_p_list_embed(b, p1, rest);
        assert(seq![records[0]] + rest =~= records);
    }
}

/// The codec round trip: parsing a serialized container returns exactly
/// the records that were serialized.
pub proof fn lemma_container_round_trip(records: Seq<EncryptedVaultView>)
    requires
        container_wf(records),
    ensures
        p_container(enc_container(records)) == Some(records),
{
    lemma_auto_spec_u64_to_from_le_bytes();
    let b = enc_container(records);
    let e7 = spec_u64_to_le_bytes(records.len() as u64);
    let el = enc_list(records);
    assert(b =~= e7 + el);
    assert(b.subrange(0, 8) =~= e7);
    lemma_p_u64_embed(b, 0, records.len() as u64);
    assert(b.subrange(8, (8 + el.len()) as int) =~= el);
    lemma_p_list_embed(b, 8, records);
}

/// Appending one pair extends its encoding at the end.
proof fn lemma_enc_pairs_snoc(fields: Seq<(Seq<u8>, Seq<u8>)>, pair: (Seq<u8>, Seq<u8>))
    ensures
        enc_pairs(fields.push(pair)) == enc_pairs(fields) + enc_bytes(pair.0) + enc_bytes(pair.1),
    decreases fields.len(),
{
    if fields.len() == 0 {
        let e = Seq::<(Seq<u8>, Seq<u8>)>::empty();
        assert(fields.push(pair)[0] == pair);
        assert(fields.push(pair).drop_first() =~= e);
        assert(enc_pairs(e) == Seq::<u8>::empty());
        assert(enc_pairs(fields) == Seq::<u8>::empty());
        assert(enc_pairs(fields.push(pair)) =~= enc_pairs(fields) + enc_bytes(pair.0)
            + enc_bytes(pair.1));
    } else {
        assert(fields.push(pair).drop_first() =~= fields.drop_first().push(pair));
        lemma_enc_pairs_snoc(fields.drop_first(), pair);
        assert(fields.push(pair)[0] == fields[0]);
        assert(enc_pairs(fields.push(pair)) =~= enc_pairs(fields) + enc_bytes(pair.0)
            + enc_bytes(pair.1));
    }
}

/// Appending one record extends its encoding at the end.
proof fn lemma_enc_list_snoc(records: Seq<EncryptedVaultView>, ev: EncryptedVaultView)
    ensures
        enc_list(records.push(ev)) == enc_list(records) + enc_record(ev),
    decreases records.len(),
{
    if records.len() == 0 {
        let e = Seq::<EncryptedVaultView>::empty();
        assert(records.push(ev)[0] == ev);
        assert(records.push(ev).drop_first() =~= e);
        assert(enc_list(e) == Seq::<u8>::empty());
        assert(enc_list(records) == Seq::<u8>::empty());
        assert(enc_list(records.push(ev)) =~= enc_list(records) + enc_record(ev));
    } else {
        assert(records.push(ev).drop_first() =~= records.drop_first().push(ev));
        lemma_enc_list_snoc(records.drop_first(), ev);
        assert(records.push(ev)[0] == records[0]);
        assert(enc_list(records.push(ev)) =~= enc_list(records) + enc_record(ev));
    }
}

/// Copy the bytes of a slice onto the end of a vector.
fn append_bytes(out: &mut Vec<u8>, data: &[u8])
    ensures
        final(out)@ == old(out)@ + data@,
{
    let ghost start = out@;
    let mut i: usize = 0;
    while i < data.len()
        invariant
            0 <= i <= data@.len(),
            out@ == start + data@.subrange(0, i as int),
        decreases data@.len() - i,
    {
        out.push(data[i]);
        proof {
            assert(start + data@.subrange(0, i + 1) =~= out@);
        }
        i = i + 1;
    }
    proof {
        assert(start + data@.subrange(0, data@.len() as int) =~= start + data@);
    }
}

fn put_u64(out: &mut Vec<u8>, x: u64)
    ensures
        final(out)@ == old(out)@ + spec_u64_to_le_bytes(x),
{
    let mut bytes = u64_to_le_bytes(x);
    out.append(&mut bytes);
}

fn put_bytes(out: &mut Vec<u8>, data: &Vec<u8>)
    ensures
        final(out)@ == old(out)@ + enc_bytes(data@),
        bytes_wf(data@),
{
    let ghost start = out@;
    put_u64(out, data.len() as u64);
    append_bytes(out, data.as_slice());
    proof {
        assert(out@ =~= start + enc_bytes(data@));
    }
}

fn put_opt(out: &mut Vec<u8>, field: &Option<Vec<u8>>)
    ensures
        final(out)@ == old(out)@ + enc_opt(opt_bytes_view(*field)),
        opt_wf(opt_bytes_view(*field)),
{
    let ghost start = out@;
    match field {
        None => {
            out.push(0u8);
            proof {
                assert(out@ =~= start + enc_opt(opt_bytes_view(*field)));
            }
        },
        Some(data) => {
            out.push(1u8);
            put_bytes(out, data);
            proof {
                assert(out@ =~= start + enc_opt(opt_bytes_view(*field)));
            }
        },
    }
}

fn put_hash(out: &mut Vec<u8>, h: &TotpHash)
    ensures
        final(out)@ == old(out)@ + enc_hash(*h),
{
    let ghost start = out@;
    let tag: u8 = match h {
        TotpHash::Sha1 => 0,
        TotpHash::Sha256 => 1,
        TotpHash::Sha512 => 2,
    };
    out.push(tag);
    proof {
        assert(out@ =~= start + enc_hash(*h));
    }
}

#[verifier::rlimit(100)]
#[verifier::spinoff_prover]
fn put_record(out: &mut Vec<u8>, record: &EncryptedVault)
    ensures
        final(out)@ == old(out)@ + enc_record(record@),
        record_wf(record@),
{
    let ghost start = out@;
    put_bytes(out, &record.name);
    put_opt(out, &record.username);
    put_opt(out, &record.password);
    put_opt(out, &record.service);
    put_opt(out, &record.note);
    put_opt(out, &record.totp_secret);
    put_hash(out, &record.totp_hash);
    put_u64(out, record.custom_fields.len() as u64);
    let ghost pairs = pairs_bytes_view(record.custom_fields@);
    let ghost mid = out@;
    proof {
        assert(pairs.subrange(0, 0) =~= Seq::<(Seq<u8>, Seq<u8>)>::empty());
        assert(mid + enc_pairs(pairs.subrange(0, 0)) =~= mid);
    }
    let mut i: usize = 0;
    while i < record.custom_fields.len()
        invariant
            0 <= i <= record.custom_fields@.len(),
            pairs == pairs_bytes_view(record.custom_fields@),
            pairs.len() == record.custom_fields@.len(),
            out@ == mid + enc_pairs(pairs.subrange(0, i as int)),
            pairs_wf(pairs.subrange(0, i as int)),
        decreases record.custom_fields@.len() - i,
    {
        put_bytes(out, &record.custom_fields[i].0);
        put_bytes(out, &record.custom_fields[i].1);
        proof {
            assert(pairs[i as int] == (
                record.custom_fields@[i as int].0@,
                record.custom_fields@[i as int].1@,
            ));
            assert(bytes_wf(pairs[i as int].0));
            assert(bytes_wf(pairs[i as int].1));
            lemma_enc_pairs_snoc(pairs.subrange(0, i as int), pairs[i as int]);
            assert(pairs.subrange(0, i + 1) =~= pairs.subrange(0, i as int).push(
                pairs[i as int],
            ));
            assert(out@ =~= mid + enc_pairs(pairs.subrange(0, i + 1)));
            assert forall|j: int|
                0 <= j < i + 1 implies bytes_wf(#[trigger] pairs.subrange(0, i + 1)[j].0)
                    && bytes_wf(pairs.subrange(0, i + 1)[j].1) by {
                assert(pairs.subrange(0, i + 1)[j] == pairs.subrange(0, i as int).push(
                    pairs[i as int],
                )[j]);
                if j < i {
                    assert(pairs.subrange(0, i + 1)[j] == pairs.subrange(0, i as int)[j]);
                    assert(bytes_wf(pairs.subrange(0, i as int)[j].0));
                    assert(bytes_wf(pairs.subrange(0, i as int)[j].1));
                } else {
                    assert(pairs.subrange(0, i + 1)[j] == pairs[i as int]);
                }
            }
            assert(pairs_wf(pairs.subrange(0, i + 1)));
        }
        i = i + 1;
    }
    proof {
        assert(pairs.subrange(0, pairs.len() as int) =~= pairs);
        assert(pairs_wf(pairs));
        assert(record@.custom_fields == pairs);
        assert(out@ =~= start + enc_record(record@));
    }
}

/// Serialize the encrypted records into the container format. The result
/// parses back to exactly these records.
pub fn serialize_records(records: &Vec<EncryptedVault>) -> (r: Vec<u8>)
    ensures
        r@ == enc_container(records_view(records@)),
        container_wf(records_view(records@)),
        p_container(r@) == Some(records_view(records@)),
{
    let ghost views = records_view(records@);
    let mut out: Vec<u8> = Vec::new();
    put_u64(&mut out, records.len() as u64);
    let ghost mid = out@;
    proof {
        assert(views.subrange(0, 0) =~= Seq::<EncryptedVaultView>::empty());
        assert(mid + enc_list(views.subrange(0, 0)) =~= mid);
    }
    let mut i: usize = 0;
    while i < records.len()
        invariant
            0 <= i <= records@.len(),
            views == records_view(records@),
            views.len() == records@.len(),
            mid == spec_u64_to_le_bytes(records@.len() as u64),
            out@ == mid + enc_list(views.subrange(0, i as int)),
            forall|j: int| 0 <= j < i ==> record_wf(#[trigger] views[j]),
        decreases records@.len() - i,
    {
        put_record(&mut out, &records[i]);
        proof {
            assert(views[i as int] == records@[i as int]@);
            lemma_enc_list_snoc(views.subrange(0, i as int), views[i as int]);
            assert(views.subrange(0, i + 1) =~= views.subrange(0, i as int).push(
                views[i as int],
            ));
            assert(out@ =~= mid + enc_list(views.subrange(0, i + 1)));
        }
        i = i + 1;
    }
    proof {
        assert(views.subrange(0, views.len() as int) =~= views);
        assert(out@ =~= enc_container(views));
        lemma_container_round_trip(views);
    }
    out
}

fn get_u64(data: &[u8], pos: usize) -> (r: Result<(u64, usize), Error>)
    requires
        pos <= data@.len(),
    ensures
        match r {
            Ok(out) => p_u64(data@, pos as int) == Some((out.0, out.1 as int)) && pos <= out.1
                <= data@.len(),
            Err(e) => p_u64(data@, pos as int) is None && e == Error::Serialization,
        },
{
    if data.len() - pos >= 8 {
        let x = u64_from_le_bytes(&data[pos..pos + 8]);
        Ok((x, pos + 8))
    } else {
        Err(Error::Serialization)
    }
}

fn get_bytes(data: &[u8], pos: usize) -> (r: Result<(Vec<u8>, usize), Error>)
    requires
        pos <= data@.len(),
    ensures
        match r {
            Ok(out) => p_bytes(data@, pos as int) matches Some(parsed) && parsed.0 == out.0@
                && parsed.1 == out.1 as int && pos <= out.1 <= data@.len(),
            Err(e) => p_bytes(data@, pos as int) is None && e == Error::Serialization,
        },
{
    let (n, p1) = match get_u64(data, pos) {
        Ok(out) => out,
        Err(e) => return Err(e),
    };
    let remaining = data.len() - p1;
    if n > remaining as u64 {
        return Err(Error::Serialization);
    }
    let len = n as usize;
    let mut out: Vec<u8> = Vec::new();
    let mut i: usize = 0;
    while i < len
        invariant
            0 <= i <= len,
            p1 + len <= data@.len(),
            data@.len() <= usize::MAX,
            out@ == data@.subrange(p1 as int, p1 + i),
        decreases len - i,
    {
        out.push(data[p1 + i]);
        proof {
            assert(out@ =~= data@.subrange(p1 as int, p1 + i + 1));
        }
        i = i + 1;
    }
    Ok((out, p1 + len))
}

fn get_opt(data: &[u8], pos: usize) -> (r: Result<(Option<Vec<u8>>, usize), Error>)
    requires
        pos <= data@.len(),
    ensures
        match r {
            Ok(out) => p_opt(data@, pos as int) matches Some(parsed) && parsed.0
                == opt_bytes_view(out.0) && parsed.1 == out.1 as int && pos <= out.1
                <= data@.len(),
            Err(e) => p_opt(data@, pos as int) is None && e == Error::Serialization,
        },
{
    if pos >= data.len() {
        return Err(Error::Serialization);
    }
    let tag = data[pos];
    if tag == 0 {
        Ok((None, pos + 1))
    } else if tag == 1 {
        let (bytes, p1) = match get_bytes(data, pos + 1) {
            Ok(out) => out,
            Err(e) => return Err(e),
        };
        Ok((Some(bytes), p1))
    } else {
        Err(Error::Serialization)
    }
}

fn get_hash(data: &[u8], pos: usize) -> (r: Result<(TotpHash, usize), Error>)
    requires
        pos <= data@.len(),
    ensures
        match r {
            Ok(out) => p_hash(data@, pos as int) == Some((out.0, out.1 as int)) && pos <= out.1
                <= data@.len(),
            Err(e) => p_hash(data@, pos as int) is None && e == Error::Serialization,
        },
{
    if pos >= data.len() {
        return Err(Error::Serialization);
    }
    let tag = data[pos];
    if tag == 0 {
        Ok((TotpHash::Sha1, pos + 1))
    } else if tag == 1 {
        Ok((TotpHash::Sha256, pos + 1))
    } else if tag == 2 {
        Ok((TotpHash::Sha512, pos + 1))
    } else {
        Err(Error::Serialization)
    }
}

#[verifier::rlimit(100)]
#[verifier::spinoff_prover]
fn get_record(data: &[u8], pos: usize) -> (r: Result<(EncryptedVault, usize), Error>)
    requires
        pos <= data@.len(),
    ensures
        match r {
            Ok(out) => p_record(data@, pos as int) matches Some(parsed) && parsed.0 == out.0@
                && parsed.1 == out.1 as int && pos <= out.1 <= data@.len(),
            Err(e) => p_record(data@, pos as int) is None && e == Error::Serialization,
        },
{
    let (name, p1) = match get_bytes(data, pos) {
        Ok(out) => out,
        Err(e) => return Err(e),
    };
    let (username, p2) = match get_opt(data, p1) {
        Ok(out) => out,
        Err(e) => return Err(e),
    };
    let (password, p3) = match get_opt(data, p2) {
        Ok(out) => out,
        Err(e) => return Err(e),
    };
    let (service, p4) = match get_opt(data, p3) {
        Ok(out) => out,
        Err(e) => return Err(e),
    };
    let (note, p5) = match get_opt(data, p4) {
        Ok(out) => out,
        Err(e) => return Err(e),
    };
    let (totp_secret, p6) = match get_opt(data, p5) {
        Ok(out) => out,
        Err(e) => return Err(e),
    };
    let (totp_hash, p7) = match get_hash(data, p6) {
        Ok(out) => out,
        Err(e) => return Err(e),
    };
    let (n, p8) = match get_u64(data, p7) {
        Ok(out) => out,
        Err(e) => return Err(e),
    };
    let ghost pos8 = p8 as int;
    let mut custom_fields: Vec<(Vec<u8>, Vec<u8>)> = Vec::new();
    let mut at: usize = p8;
    let mut parsed: u64 = 0;
    while parsed < n
        invariant
            pos <= at <= data@.len(),
            0 <= parsed <= n,
            custom_fields@.len() == parsed,
            p_record(data@, pos as int) == (match p_pairs(data@, pos8, n as nat) {
                Some(out) => Some(
                    (
                        EncryptedVaultView {
                            name: name@,
                            username: opt_bytes_view(username),
                            password: opt_bytes_view(password),
                            service: opt_bytes_view(service),
                            note: opt_bytes_view(note),
                            totp_secret: opt_bytes_view(totp_secret),
                            totp_hash: totp_hash,
                            custom_fields: out.0,
                        },
                        out.1,
                    ),
                ),
                None => None::<(EncryptedVaultView, int)>,
            }),
            p_pairs(data@, pos8, n as nat) == (match p_pairs(
                data@,
                at as int,
                (n - parsed) as nat,
            ) {
                Some(rest) => Some(
                    (pairs_bytes_view(custom_fields@) + rest.0, rest.1),
                ),
                None => None::<(Seq<(Seq<u8>, Seq<u8>)>, int)>,
            }),
        decreases n - parsed,
    {
        let ghost acc = pairs_bytes_view(custom_fields@);
        let (key, q1) = match get_bytes(data, at) {
            Ok(out) => out,
            Err(e) => return Err(e),
        };
        let (value, q2) = match get_bytes(data, q1) {
            Ok(out) => out,
            Err(e) => return Err(e),
        };
        custom_fields.push((key, value));
        proof {
            assert(pairs_bytes_view(custom_fields@) =~= acc.push((key@, value@)));
            let tail = p_pairs(data@, q2 as int, (n - parsed - 1) as nat);
            match tail {
                Some(rest) => {
                    assert(p_pairs(data@, at as int, (n - parsed) as nat) == Some(
                        (seq![(key@, value@)] + rest.0, rest.1),
                    ));
                    assert(acc.push((key@, value@)) + rest.0 =~= acc + (seq![(key@, value@)]
                        + rest.0));
                },
                None => {
                    assert(p_pairs(data@, at as int, (n - parsed) as nat) is None);
                },
            }
        }
        at = q2;
        parsed = parsed + 1;
    }
    proof {
        assert(p_pairs(data@, at as int, 0) == Some(
            (Seq::<(Seq<u8>, Seq<u8>)>::empty(), at as int),
        ));
        assert(pairs_bytes_view(custom_fields@) + Seq::<(Seq<u8>, Seq<u8>)>::empty()
            =~= pairs_bytes_view(custom_fields@));
    }
    let out = EncryptedVault {
        name,
        username,
        password,
        service,
        note,
        totp_secret,
        totp_hash,
        custom_fields,
    };
    proof {
        assert(p_record(data@, pos as int) == Some((out@, at as int)));
    }
    Ok((out, at))
}

/// Parse the container format back into encrypted records. Succeeds
/// exactly when the bytes parse as a whole container, and then returns
/// exactly the records it encodes.
pub fn deserialize_records(data: &[u8]) -> (r: Result<Vec<EncryptedVault>, Error>)
    ensures
        match r {
            Ok(records) => p_container(data@) == Some(records_view(records@)),
            Err(e) => p_container(data@) is None && e == Error::Serialization,
        },
{
    let total = data.len();
    let (n, p1) = match get_u64(data, 0) {
        Ok(out) => out,
        Err(e) => return Err(e),
    };
    let ghost pos1 = p1 as int;
    let mut records: Vec<EncryptedVault> = Vec::new();
    let mut at: usize = p1;
    let mut parsed: u64 = 0;
    while parsed < n
        invariant
            at <= data@.len(),
            0 <= parsed <= n,
            records@.len() == parsed,
            data@.len() <= usize::MAX,
            p_container(data@) == (match p_list(data@, pos1, n as nat) {
                Some(out) => if out.1 == data@.len() {
                    Some(out.0)
                } else {
                    None::<Seq<EncryptedVaultView>>
                },
                None => None::<Seq<EncryptedVaultView>>,
            }),
            p_list(data@, pos1, n as nat) == (match p_list(data@, at as int, (n - parsed) as nat) {
                Some(rest) => Some((records_view(records@) + rest.0, rest.1)),
                None => None::<(Seq<EncryptedVaultView>, int)>,
            }),
        decreases n - parsed,
    {
        let ghost acc = records_view(records@);
        let (record, q1) = match get_record(data, at) {
            Ok(out) => out,
            Err(e) => return Err(e),
        };
        let ghost rv = record@;
        records.push(record);
        proof {
            assert(records_view(records@) =~= acc.push(rv));
            let tail = p_list(data@, q1 as int, (n - parsed - 1) as nat);
            match tail {
                Some(rest) => {
                    assert(p_list(data@, at as int, (n - parsed) as nat) == Some(
                        (seq![rv] + rest.0, rest.1),
                    ));
                    assert(acc.push(rv) + rest.0 =~= acc + (seq![rv] + rest.0));
                },
                None => {
                    assert(p_list(data@, at as int, (n - parsed) as nat) is None);
                },
            }
        }
        at = q1;
        parsed = parsed + 1;
    }
    proof {
        assert(p_list(data@, at as int, 0) == Some((Seq::<EncryptedVaultView>::empty(), at as int)));
        assert(records_view(records@) + Seq::<EncryptedVaultView>::empty() =~= records_view(
            records@,
        ));
    }
    if at != total {
        return Err(Error::Serialization);
    }
    Ok(records)
}

} // verus!

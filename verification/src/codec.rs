//! The persistence codec: a self-describing text document that a
//! snapshot is flattened into and reconstructed from, byte-exactly.
//!
//! The document is a character sequence: a magic header, the record
//! count, the flattened records, and the snapshot provenance fields.
//! Numbers are fixed-width decimal, strings are length-prefixed, and
//! checksums are length-prefixed upper-case hex.  Decoding a document
//! produced by encoding recovers the snapshot exactly; the round trip is
//! proved below.

use crate::digits::{
    encode_fixed, lemma_enc_fixed_len, lemma_fixed_roundtrip, lemma_hex_roundtrip,
    lemma_pow10_19, lemma_pow10_20, parse_fixed, pow10, spec_digits_val, spec_enc_fixed,
    spec_hex_char, spec_hex_val, hex_char, hex_val,
};
use crate::hasher::HashType;
use crate::snapshot::{
    has_path, path_index, spec_upsert, unique_paths, views_of_entries, views_of_strings,
    upsert_entry, FileMetadata, FileMetadataV, Snapshot, SnapshotError, SnapshotV, str_to_chars,
    wf_v,
};
use vstd::prelude::*;
use vstd::string::StrSliceExecFns;

verus! {

/// The document header: format name and version.
pub open spec fn spec_magic() -> Seq<char> {
    seq!['F', 'I', 'M', 'S', 'N', 'A', 'P', '1']
}

/// A string field: its character count, then its characters.
pub open spec fn spec_enc_str(s: Seq<char>) -> Seq<char> {
    spec_enc_fixed(s.len(), 20) + s
}

/// A byte sequence as hex characters, two per byte, upper case.
pub open spec fn spec_enc_hex(b: Seq<u8>) -> Seq<char>
    decreases b.len(),
{
    if b.len() == 0 {
        Seq::<char>::empty()
    } else {
        spec_enc_hex(b.drop_last()) + seq![
            spec_hex_char(b.last() as int / 16),
            spec_hex_char(b.last() as int % 16),
        ]
    }
}

/// A checksum field: its byte count, then its bytes in hex.
pub open spec fn spec_enc_bytes(b: Seq<u8>) -> Seq<char> {
    spec_enc_fixed(b.len(), 20) + spec_enc_hex(b)
}

/// The magnitude of a signed value.
pub open spec fn i64_mag(n: i64) -> nat {
    if n >= 0 {
        n as nat
    } else {
        (-(n as int)) as nat
    }
}

/// A signed field: an explicit sign, then nineteen decimal digits.
pub open spec fn spec_enc_i64(n: i64) -> Seq<char> {
    (if n < 0 {
        seq!['-']
    } else {
        seq!['+']
    }) + spec_enc_fixed(i64_mag(n), 19)
}

/// The algorithm tag character.
pub open spec fn spec_algo_char(t: HashType) -> char {
    match t {
        HashType::MD5 => 'M',
        HashType::SHA3 => 'S',
        HashType::BLAKE3 => 'B',
    }
}

/// One flattened record: path, checksum, size, inode, ctime, mtime.
pub open spec fn spec_enc_record(e: FileMetadataV) -> Seq<char> {
    spec_enc_str(e.path) + spec_enc_bytes(e.check_sum) + spec_enc_fixed(e.size as nat, 20)
        + spec_enc_fixed(e.ino as nat, 20) + spec_enc_i64(e.ctime) + spec_enc_i64(e.mtime)
}

/// The flattened records, in map order.
pub open spec fn spec_enc_records(es: Seq<FileMetadataV>) -> Seq<char>
    decreases es.len(),
{
    if es.len() == 0 {
        Seq::<char>::empty()
    } else {
        spec_enc_records(es.drop_last()) + spec_enc_record(es.last())
    }
}

/// The blacklist entries, each a string field.
pub open spec fn spec_enc_strs(bl: Seq<Seq<char>>) -> Seq<char>
    decreases bl.len(),
{
    if bl.len() == 0 {
        Seq::<char>::empty()
    } else {
        spec_enc_strs(bl.drop_last()) + spec_enc_str(bl.last())
    }
}

/// The whole document for a snapshot value.
pub open spec fn spec_enc_snapshot(v: SnapshotV) -> Seq<char> {
    spec_magic() + spec_enc_fixed(v.entries.len(), 20) + spec_enc_records(v.entries)
        + spec_enc_str(v.root_path) + seq![spec_algo_char(v.hash_type)] + spec_enc_str(v.uuid)
        + spec_enc_i64(v.date_created) + spec_enc_fixed(v.black_list.len(), 20) + spec_enc_strs(
        v.black_list,
    )
}

fn encode_str_into(out: &mut Vec<char>, s: &String)
    ensures
        final(out)@ == old(out)@ + spec_enc_str(s@),
{
    let n = s.as_str().unicode_len();
    let mut len_chars = encode_fixed(n as u64, 20);
    out.append(&mut len_chars);
    let mut cs = str_to_chars(s.as_str());
    out.append(&mut cs);
    proof {
        assert(final(out)@ =~= old(out)@ + spec_enc_str(s@));
    }
}

fn encode_hex_into(out: &mut Vec<char>, b: &Vec<u8>)
    ensures
        final(out)@ == old(out)@ + spec_enc_hex(b@),
{
    let n = b.len();
    proof {
        assert(b@.take(0) =~= Seq::<u8>::empty());
        assert(old(out)@ + spec_enc_hex(b@.take(0)) =~= old(out)@);
    }
    for i in 0..n
        invariant
            n == b@.len(),
            out@ == old(out)@ + spec_enc_hex(b@.take(i as int)),
    {
        let byte = b[i];
        out.push(hex_char(byte / 16));
        out.push(hex_char(byte % 16));
        proof {
            assert(b@.take(i + 1).drop_last() =~= b@.take(i as int));
            assert(b@.take(i + 1).last() == b@[i as int]);
            assert(out@ =~= old(out)@ + spec_enc_hex(b@.take(i + 1)));
        }
    }
    proof {
        assert(b@.take(n as int) =~= b@);
    }
}

fn encode_bytes_into(out: &mut Vec<char>, b: &Vec<u8>)
    ensures
        final(out)@ == old(out)@ + spec_enc_bytes(b@),
{
    let mut len_chars = encode_fixed(b.len() as u64, 20);
    out.append(&mut len_chars);
    encode_hex_into(out, b);
    proof {
        assert(final(out)@ =~= old(out)@ + spec_enc_bytes(b@));
    }
}

fn encode_i64_into(out: &mut Vec<char>, n: i64)
    ensures
        final(out)@ == old(out)@ + spec_enc_i64(n),
{
    if n < 0 {
        out.push('-');
    } else {
        out.push('+');
    }
    let mag: u64 = if n >= 0 {
        n as u64
    } else {
        (-(n as i128)) as u64
    };
    proof {
        assert(mag as nat == i64_mag(n));
    }
    let mut mag_chars = encode_fixed(mag, 19);
    out.append(&mut mag_chars);
    proof {
        assert(final(out)@ =~= old(out)@ + spec_enc_i64(n));
    }
}

fn encode_record_into(out: &mut Vec<char>, m: &FileMetadata)
    ensures
        final(out)@ == old(out)@ + spec_enc_record(m@),
{
    encode_str_into(out, &m.path);
    encode_bytes_into(out, &m.check_sum);
    let mut size_chars = encode_fixed(m.size, 20);
    out.append(&mut size_chars);
    let mut ino_chars = encode_fixed(m.ino, 20);
    out.append(&mut ino_chars);
    encode_i64_into(out, m.ctime);
    encode_i64_into(out, m.mtime);
    proof {
        assert(final(out)@ =~= old(out)@ + spec_enc_record(m@));
    }
}

/// Flatten a snapshot into its document.
pub fn encode_snapshot(s: &Snapshot) -> (out: Vec<char>)
    ensures
        out@ == spec_enc_snapshot(s@),
{
    let mut out: Vec<char> = Vec::new();
    out.push('F');
    out.push('I');
    out.push('M');
    out.push('S');
    out.push('N');
    out.push('A');
    out.push('P');
    out.push('1');
    proof {
        assert(out@ =~= spec_magic());
    }
    let ghost after_magic = out@;
    let mut count_chars = encode_fixed(s.file_hashes.len() as u64, 20);
    out.append(&mut count_chars);
    let ghost after_count = out@;

    let n = s.file_hashes.len();
    let ghost entries = s@.entries;
    proof {
        assert(entries.take(0) =~= Seq::<FileMetadataV>::empty());
        assert(out@ + spec_enc_records(entries.take(0)) =~= out@);
    }
    for i in 0..n
        invariant
            n == s.file_hashes@.len(),
            entries == s@.entries,
            out@ == after_count + spec_enc_records(entries.take(i as int)),
    {
        encode_record_into(&mut out, &s.file_hashes[i]);
        proof {
            assert(entries.take(i + 1).drop_last() =~= entries.take(i as int));
            assert(entries.take(i + 1).last() == entries[i as int]);
            assert(out@ =~= after_count + spec_enc_records(entries.take(i + 1)));
        }
    }
    proof {
        assert(entries.take(n as int) =~= entries);
    }

    encode_str_into(&mut out, &s.root_path);
    match s.hash_type {
        HashType::MD5 => out.push('M'),
        HashType::SHA3 => out.push('S'),
        HashType::BLAKE3 => out.push('B'),
    }
    encode_str_into(&mut out, &s.uuid);
    encode_i64_into(&mut out, s.date_created);
    let mut bl_count_chars = encode_fixed(s.black_list.len() as u64, 20);
    out.append(&mut bl_count_chars);

    let ghost after_bl_count = out@;
    let ghost bl = s@.black_list;
    let m = s.black_list.len();
    proof {
        assert(bl.take(0) =~= Seq::<Seq<char>>::empty());
        assert(out@ + spec_enc_strs(bl.take(0)) =~= out@);
    }
    for i in 0..m
        invariant
            m == s.black_list@.len(),
            bl == s@.black_list,
            out@ == after_bl_count + spec_enc_strs(bl.take(i as int)),
    {
        encode_str_into(&mut out, &s.black_list[i]);
        proof {
            assert(bl.take(i + 1).drop_last() =~= bl.take(i as int));
            assert(bl.take(i + 1).last() == bl[i as int]);
            assert(out@ =~= after_bl_count + spec_enc_strs(bl.take(i + 1)));
        }
    }
    proof {
        assert(bl.take(m as int) =~= bl);
        assert(out@ =~= spec_enc_snapshot(s@));
    }
    out
}

/// Parse a fixed-width decimal number; the value must fit in `u64`.
pub open spec fn sp_fixed(t: Seq<char>, w: nat) -> Option<(nat, Seq<char>)> {
    if t.len() >= w && spec_digits_val(t.take(w as int)) is Some && spec_digits_val(
        t.take(w as int),
    ).unwrap() <= u64::MAX {
        Some((spec_digits_val(t.take(w as int)).unwrap(), t.skip(w as int)))
    } else {
        None
    }
}

/// Parse a length-prefixed string field.
pub open spec fn sp_str(t: Seq<char>) -> Option<(Seq<char>, Seq<char>)> {
    match sp_fixed(t, 20) {
        None => None,
        Some((n, r)) => if r.len() >= n {
            Some((r.take(n as int), r.skip(n as int)))
        } else {
            None
        },
    }
}

/// The bytes of an even-length run of hex digit characters.
pub open spec fn spec_hex_bytes(s: Seq<char>) -> Option<Seq<u8>>
    decreases s.len(),
{
    if s.len() == 0 {
        Some(Seq::<u8>::empty())
    } else if s.len() < 2 {
        None
    } else {
        match spec_hex_bytes(s.take(s.len() - 2)) {
            None => None,
            Some(bs) => match spec_hex_val(s[s.len() - 2]) {
                None => None,
                Some(hi) => match spec_hex_val(s[s.len() - 1]) {
                    None => None,
                    Some(lo) => Some(bs.push((hi * 16 + lo) as u8)),
                },
            },
        }
    }
}

/// If a hex run has a value, every character in it is a hex digit.
proof fn lemma_hex_bytes_all_hex(s: Seq<char>)
    requires
        spec_hex_bytes(s) is Some,
    ensures
        forall|k: int| 0 <= k < s.len() ==> spec_hex_val(s[k]) is Some,
    decreases s.len(),
{
    if s.len() >= 2 {
        lemma_hex_bytes_all_hex(s.take(s.len() - 2));
        assert forall|k: int| 0 <= k < s.len() implies spec_hex_val(s[k]) is Some by {
            if k < s.len() - 2 {
                assert(s.take(s.len() - 2)[k] == s[k]);
            }
        }
    }
}

/// Parse a length-prefixed checksum field.
pub open spec fn sp_bytes(t: Seq<char>) -> Option<(Seq<u8>, Seq<char>)> {
    match sp_fixed(t, 20) {
        None => None,
        Some((n, r)) => if r.len() >= 2 * n && spec_hex_bytes(r.take(2 * n as int)) is Some {
            Some((spec_hex_bytes(r.take(2 * n as int)).unwrap(), r.skip(2 * n as int)))
        } else {
            None
        },
    }
}

/// Parse a signed field: a sign character and nineteen digits.
pub open spec fn sp_i64(t: Seq<char>) -> Option<(i64, Seq<char>)> {
    if t.len() < 1 {
        None
    } else if t[0] != '+' && t[0] != '-' {
        None
    } else {
        match sp_fixed(t.skip(1), 19) {
            None => None,
            Some((m, r)) => if t[0] == '+' {
                if m <= i64::MAX as nat {
                    Some((m as i64, r))
                } else {
                    None
                }
            } else {
                if m <= 0x8000000000000000 as nat {
                    Some(((-(m as int)) as i64, r))
                } else {
                    None
                }
            },
        }
    }
}

/// Parse the algorithm tag.
pub open spec fn sp_algo(t: Seq<char>) -> Option<(HashType, Seq<char>)> {
    if t.len() < 1 {
        None
    } else if t[0] == 'M' {
        Some((HashType::MD5, t.skip(1)))
    } else if t[0] == 'S' {
        Some((HashType::SHA3, t.skip(1)))
    } else if t[0] == 'B' {
        Some((HashType::BLAKE3, t.skip(1)))
    } else {
        None
    }
}

/// Parse one flattened record.  A record with an empty checksum marks a
/// failed read and is refused: such records are never stored, so a
/// document holding one is malformed.
pub open spec fn sp_record(t: Seq<char>) -> Option<(FileMetadataV, Seq<char>)> {
    match sp_str(t) {
        None => None,
        Some((path, t1)) => match sp_bytes(t1) {
            None => None,
            Some((sum, t2)) => if sum.len() == 0 {
                None
            } else {
                match sp_fixed(t2, 20) {
                    None => None,
                    Some((size, t3)) => match sp_fixed(t3, 20) {
                        None => None,
                        Some((ino, t4)) => match sp_i64(t4) {
                            None => None,
                            Some((ctime, t5)) => match sp_i64(t5) {
                                None => None,
                                Some((mtime, t6)) => Some(
                                    (
                                        FileMetadataV {
                                            path,
                                            check_sum: sum,
                                            size: size as u64,
                                            ino: ino as u64,
                                            ctime,
                                            mtime,
                                        },
                                        t6,
                                    ),
                                ),
                            },
                        },
                    },
                }
            },
        },
    }
}

/// Parse `n` records in sequence.
pub open spec fn sp_records(t: Seq<char>, n: nat) -> Option<(Seq<FileMetadataV>, Seq<char>)>
    decreases n,
{
    if n == 0 {
        Some((Seq::<FileMetadataV>::empty(), t))
    } else {
        match sp_records(t, (n - 1) as nat) {
            None => None,
            Some((es, r)) => match sp_record(r) {
                None => None,
                Some((e, r2)) => Some((es.push(e), r2)),
            },
        }
    }
}

/// Parse `n` string fields in sequence.
pub open spec fn sp_strs(t: Seq<char>, n: nat) -> Option<(Seq<Seq<char>>, Seq<char>)>
    decreases n,
{
    if n == 0 {
        Some((Seq::<Seq<char>>::empty(), t))
    } else {
        match sp_strs(t, (n - 1) as nat) {
            None => None,
            Some((ss, r)) => match sp_str(r) {
                None => None,
                Some((s, r2)) => Some((ss.push(s), r2)),
            },
        }
    }
}

/// Parse a whole document, strictly: nothing may follow the last field.
/// The record list is the raw document order, duplicates included.
/// Parse the provenance fields after the records, strictly to the end of
/// the document: root path, algorithm tag, uuid, creation time, and the
/// blacklist.
pub open spec fn sp_tail(t: Seq<char>) -> Option<
    (Seq<char>, HashType, Seq<char>, i64, Seq<Seq<char>>),
> {
    match sp_str(t) {
        None => None,
        Some((root, t3)) => match sp_algo(t3) {
            None => None,
            Some((algo, t4)) => match sp_str(t4) {
                None => None,
                Some((uuid, t5)) => match sp_i64(t5) {
                    None => None,
                    Some((date, t6)) => match sp_fixed(t6, 20) {
                        None => None,
                        Some((bn, t7)) => match sp_strs(t7, bn) {
                            None => None,
                            Some((bl, t8)) => if t8.len() == 0 {
                                Some((root, algo, uuid, date, bl))
                            } else {
                                None
                            },
                        },
                    },
                },
            },
        },
    }
}

pub open spec fn sp_snapshot(t: Seq<char>) -> Option<SnapshotV> {
    if t.len() < 8 || t.take(8) != spec_magic() {
        None
    } else {
        match sp_fixed(t.skip(8), 20) {
            None => None,
            Some((n, t1)) => match sp_records(t1, n) {
                None => None,
                Some((es, t2)) => match sp_tail(t2) {
                    None => None,
                    Some((root, algo, uuid, date, bl)) => Some(
                        SnapshotV {
                            entries: es,
                            black_list: bl,
                            root_path: root,
                            hash_type: algo,
                            uuid: uuid,
                            date_created: date,
                        },
                    ),
                },
            },
        }
    }
}

/// Rebuild a map from flattened records: last write wins on a duplicate
/// path.
pub open spec fn dedup_entries(es: Seq<FileMetadataV>) -> Seq<FileMetadataV>
    decreases es.len(),
{
    if es.len() == 0 {
        Seq::<FileMetadataV>::empty()
    } else {
        spec_upsert(dedup_entries(es.drop_last()), es.last())
    }
}

/// The snapshot a parsed document reconstructs: the records rebuilt into
/// a map, everything else taken as parsed.
pub open spec fn import_view(doc: SnapshotV) -> SnapshotV {
    SnapshotV { entries: dedup_entries(doc.entries), ..doc }
}

fn pr_fixed(text: &Vec<char>, pos: usize, w: usize) -> (r: Option<(u64, usize)>)
    requires
        pos <= text@.len(),
        w <= 20,
    ensures
        match r {
            Some((v, p)) => pos <= p <= text@.len() && sp_fixed(text@.skip(pos as int), w as nat)
                == Some((v as nat, text@.skip(p as int))),
            None => sp_fixed(text@.skip(pos as int), w as nat) is None,
        },
{
    let r = parse_fixed(text, pos, w);
    proof {
        let t = text@.skip(pos as int);
        match r {
            Some((v, p)) => {
                assert(t.take(w as int) =~= text@.subrange(pos as int, pos + w));
                assert(t.skip(w as int) =~= text@.skip(pos + w));
            },
            None => {
                if pos + w <= text@.len() {
                    assert(t.take(w as int) =~= text@.subrange(pos as int, pos + w));
                }
            },
        }
    }
    r
}

fn pr_str(text: &Vec<char>, pos: usize) -> (r: Option<(String, usize)>)
    requires
        pos <= text@.len(),
    ensures
        match r {
            Some((s, p)) => pos <= p <= text@.len() && sp_str(text@.skip(pos as int)) == Some(
                (s@, text@.skip(p as int)),
            ),
            None => sp_str(text@.skip(pos as int)) is None,
        },
{
    let ghost t = text@.skip(pos as int);
    match pr_fixed(text, pos, 20) {
        None => None,
        Some((n, p1)) => {
            let rem = text.len() - p1;
            if n > rem as u64 {
                return None;
            }
            let nn = n as usize;
            let mut out: Vec<char> = Vec::new();
            proof {
                assert(out@ =~= text@.subrange(p1 as int, p1 as int));
            }
            for i in 0..nn
                invariant
                    p1 + nn <= text@.len(),
                    text@.len() <= usize::MAX,
                    out@ == text@.subrange(p1 as int, p1 + i),
            {
                out.push(text[p1 + i]);
                proof {
                    assert(out@ =~= text@.subrange(p1 as int, p1 + i + 1));
                }
            }
            let s = crate::snapshot::chars_to_string(&out);
            proof {
                let r1 = text@.skip(p1 as int);
                assert(r1.take(n as int) =~= text@.subrange(p1 as int, p1 + nn));
                assert(r1.skip(n as int) =~= text@.skip(p1 + nn));
            }
            Some((s, p1 + nn))
        },
    }
}

fn pr_hex(text: &Vec<char>, pos: usize, count: u64) -> (r: Option<(Vec<u8>, usize)>)
    requires
        pos <= text@.len(),
    ensures
        match r {
            Some((b, p)) => {
                &&& pos + 2 * count <= text@.len()
                &&& p == pos + 2 * count
                &&& b@.len() == count
                &&& spec_hex_bytes(text@.subrange(pos as int, pos + 2 * count)) == Some(b@)
            },
            None => 2 * count > text@.len() - pos || spec_hex_bytes(
                text@.subrange(pos as int, pos + 2 * count),
            ) is None,
        },
{
    let rem = text.len() - pos;
    if count > (rem / 2) as u64 {
        return None;
    }
    let cnt = count as usize;
    let mut out: Vec<u8> = Vec::new();
    proof {
        assert(text@.subrange(pos as int, pos as int) =~= Seq::<char>::empty());
    }
    for i in 0..cnt
        invariant
            cnt == count,
            pos + 2 * cnt <= text@.len(),
            text@.len() <= usize::MAX,
            out@.len() == i,
            spec_hex_bytes(text@.subrange(pos as int, pos + 2 * i)) == Some(out@),
    {
        let hi = hex_val(text[pos + 2 * i]);
        let lo = hex_val(text[pos + 2 * i + 1]);
        proof {
            let region = text@.subrange(pos as int, pos + 2 * i + 2);
            assert(region.take(region.len() - 2) =~= text@.subrange(pos as int, pos + 2 * i));
            assert(region[region.len() - 2] == text@[pos + 2 * i]);
            assert(region[region.len() - 1] == text@[pos + 2 * i + 1]);
        }
        match (hi, lo) {
            (Some(h), Some(l)) => {
                out.push(h * 16 + l);
            },
            _ => {
                proof {
                    let full = text@.subrange(pos as int, pos + 2 * count);
                    if spec_hex_bytes(full) is Some {
                        lemma_hex_bytes_all_hex(full);
                        assert(full[2 * i] == text@[pos + 2 * i]);
                        assert(full[2 * i + 1] == text@[pos + 2 * i + 1]);
                    }
                }
                return None;
            },
        }
    }
    Some((out, pos + 2 * cnt))
}

fn pr_bytes(text: &Vec<char>, pos: usize) -> (r: Option<(Vec<u8>, usize)>)
    requires
        pos <= text@.len(),
    ensures
        match r {
            Some((b, p)) => pos <= p <= text@.len() && sp_bytes(text@.skip(pos as int)) == Some(
                (b@, text@.skip(p as int)),
            ),
            None => sp_bytes(text@.skip(pos as int)) is None,
        },
{
    let ghost t = text@.skip(pos as int);
    match pr_fixed(text, pos, 20) {
        None => None,
        Some((n, p1)) => {
            let ghost r1 = text@.skip(p1 as int);
            match pr_hex(text, p1, n) {
                None => {
                    proof {
                        if r1.len() >= 2 * n {
                            assert(r1.take(2 * n as int) =~= text@.subrange(
                                p1 as int,
                                p1 + 2 * n,
                            ));
                        }
                    }
                    None
                },
                Some((b, p2)) => {
                    proof {
                        assert(r1.take(2 * n as int) =~= text@.subrange(p1 as int, p1 + 2 * n));
                        assert(r1.skip(2 * n as int) =~= text@.skip(p2 as int));
                    }
                    Some((b, p2))
                },
            }
        },
    }
}

fn pr_i64(text: &Vec<char>, pos: usize) -> (r: Option<(i64, usize)>)
    requires
        pos <= text@.len(),
    ensures
        match r {
            Some((v, p)) => pos <= p <= text@.len() && sp_i64(text@.skip(pos as int)) == Some(
                (v, text@.skip(p as int)),
            ),
            None => sp_i64(text@.skip(pos as int)) is None,
        },
{
    if pos >= text.len() {
        return None;
    }
    let sign = text[pos];
    if sign != '+' && sign != '-' {
        return None;
    }
    proof {
        assert(text@.skip(pos as int)[0] == text@[pos as int]);
        assert(text@.skip(pos as int).skip(1) =~= text@.skip(pos + 1));
    }
    match pr_fixed(text, pos + 1, 19) {
        None => None,
        Some((m, p)) => {
            if sign == '+' {
                if m > i64::MAX as u64 {
                    None
                } else {
                    Some((m as i64, p))
                }
            } else {
                if m > 0x8000000000000000u64 {
                    None
                } else if m == 0x8000000000000000u64 {
                    Some((i64::MIN, p))
                } else {
                    Some((-(m as i64), p))
                }
            }
        },
    }
}

fn pr_record(text: &Vec<char>, pos: usize) -> (r: Option<(FileMetadata, usize)>)
    requires
        pos <= text@.len(),
    ensures
        match r {
            Some((m, p)) => {
                &&& pos <= p <= text@.len()
                &&& sp_record(text@.skip(pos as int)) == Some((m@, text@.skip(p as int)))
                &&& m@.check_sum.len() > 0
            },
            None => sp_record(text@.skip(pos as int)) is None,
        },
{
    let path = match pr_str(text, pos) {
        None => {
            return None;
        },
        Some(x) => x,
    };
    let sum = match pr_bytes(text, path.1) {
        None => {
            return None;
        },
        Some(x) => x,
    };
    if sum.0.len() == 0 {
        return None;
    }
    let size = match pr_fixed(text, sum.1, 20) {
        None => {
            return None;
        },
        Some(x) => x,
    };
    let ino = match pr_fixed(text, size.1, 20) {
        None => {
            return None;
        },
        Some(x) => x,
    };
    let ctime = match pr_i64(text, ino.1) {
        None => {
            return None;
        },
        Some(x) => x,
    };
    let mtime = match pr_i64(text, ctime.1) {
        None => {
            return None;
        },
        Some(x) => x,
    };
    let meta = FileMetadata {
        path: path.0,
        check_sum: sum.0,
        size: size.0,
        ino: ino.0,
        ctime: ctime.0,
        mtime: mtime.0,
    };
    proof {
        assert(sp_record(text@.skip(pos as int)) == Some(
            (meta@, text@.skip(mtime.1 as int)),
        )) by {
            assert(meta@ =~= sp_record(text@.skip(pos as int)).unwrap().0);
        }
    }
    Some((meta, mtime.1))
}

/// A parse that succeeds for `i` records and then fails keeps failing for
/// every larger count.
proof fn lemma_records_fail(t: Seq<char>, i: nat, k: nat, rem: Seq<char>)
    requires
        sp_records(t, i) matches Some(x) && x.1 == rem,
        sp_record(rem) is None,
        i < k,
    ensures
        sp_records(t, k) is None,
    decreases k,
{
    if k == i + 1 {
    } else {
        lemma_records_fail(t, i, (k - 1) as nat, rem);
    }
}

/// The same for string fields.
proof fn lemma_strs_fail(t: Seq<char>, i: nat, k: nat, rem: Seq<char>)
    requires
        sp_strs(t, i) matches Some(x) && x.1 == rem,
        sp_str(rem) is None,
        i < k,
    ensures
        sp_strs(t, k) is None,
    decreases k,
{
    if k == i + 1 {
    } else {
        lemma_strs_fail(t, i, (k - 1) as nat, rem);
    }
}

/// Every rebuilt record is one of the raw records.
proof fn lemma_dedup_membership(es: Seq<FileMetadataV>)
    ensures
        forall|k: int| #![trigger dedup_entries(es)[k]] 0 <= k < dedup_entries(es).len() ==> exists|
            m: int,
        | 0 <= m < es.len() && dedup_entries(es)[k] == es[m],
    decreases es.len(),
{
    if es.len() > 0 {
        lemma_dedup_membership(es.drop_last());
        let prev = dedup_entries(es.drop_last());
        let cur = dedup_entries(es);
        assert forall|k: int| #![trigger cur[k]] 0 <= k < cur.len() implies exists|m: int|
            0 <= m < es.len() && cur[k] == es[m] by {
            if has_path(prev, es.last().path) {
                let j = path_index(prev, es.last().path);
                if k == j {
                    assert(cur[k] == es[es.len() - 1]);
                } else {
                    assert(cur[k] == prev[k]);
                    let m = choose|m: int| 0 <= m < es.drop_last().len() && prev[k] == es.drop_last()[m];
                    assert(es.drop_last()[m] == es[m]);
                }
            } else {
                if k == cur.len() - 1 {
                    assert(cur[k] == es[es.len() - 1]);
                } else {
                    assert(cur[k] == prev[k]);
                    let m = choose|m: int| 0 <= m < es.drop_last().len() && prev[k] == es.drop_last()[m];
                    assert(es.drop_last()[m] == es[m]);
                }
            }
        }
    }
}

/// Reconstruct a snapshot from its document.  Fails exactly on a
/// malformed document, never by substituting a default snapshot.
#[verifier::rlimit(100)]
#[verifier::loop_isolation(false)]
pub fn decode_snapshot(text: &Vec<char>) -> (r: Result<Snapshot, SnapshotError>)
    ensures
        match r {
            Ok(s) => {
                &&& sp_snapshot(text@) is Some
                &&& s@ == import_view(sp_snapshot(text@).unwrap())
                &&& s.wf()
            },
            Err(e) => sp_snapshot(text@) is None && e == SnapshotError::Serialization,
        },
{
    if text.len() < 8 {
        return Err(SnapshotError::Serialization);
    }
    if !(text[0] == 'F' && text[1] == 'I' && text[2] == 'M' && text[3] == 'S' && text[4] == 'N'
        && text[5] == 'A' && text[6] == 'P' && text[7] == '1') {
        proof {
            if text@.take(8) == spec_magic() {
                assert(text@.take(8)[0] == text@[0]);
                assert(text@.take(8)[1] == text@[1]);
                assert(text@.take(8)[2] == text@[2]);
                assert(text@.take(8)[3] == text@[3]);
                assert(text@.take(8)[4] == text@[4]);
                assert(text@.take(8)[5] == text@[5]);
                assert(text@.take(8)[6] == text@[6]);
                assert(text@.take(8)[7] == text@[7]);
            }
        }
        return Err(SnapshotError::Serialization);
    }
    proof {
        assert(text@.take(8) =~= spec_magic());
    }
    let count = match pr_fixed(text, 8, 20) {
        None => {
            return Err(SnapshotError::Serialization);
        },
        Some(x) => x,
    };
    let n: u64 = count.0;
    let ghost t1 = text@.skip(count.1 as int);

    let mut entries: Vec<FileMetadata> = Vec::new();
    let mut pos = count.1;
    let ghost mut raw = Seq::<FileMetadataV>::empty();
    let mut i: u64 = 0;
    proof {
        assert(views_of_entries(entries@) =~= Seq::<FileMetadataV>::empty());
        assert(views_of_entries(entries@) =~= dedup_entries(raw));
    }
    while i < n
        invariant
            i <= n,
            pos <= text@.len(),
            sp_records(t1, i as nat) == Some((raw, text@.skip(pos as int))),
            views_of_entries(entries@) == dedup_entries(raw),
            unique_paths(views_of_entries(entries@)),
            forall|k: int| #![trigger raw[k]] 0 <= k < raw.len() ==> raw[k].check_sum.len() > 0,
            raw.len() == i,
        decreases n - i,
    {
        let rec = match pr_record(text, pos) {
            None => {
                proof {
                    lemma_records_fail(t1, i as nat, n as nat, text@.skip(pos as int));
                }
                return Err(SnapshotError::Serialization);
            },
            Some(x) => x,
        };
        let ghost raw_prev = raw;
        proof {
            raw = raw.push(rec.0@);
            assert(raw.drop_last() =~= raw_prev);
            assert(raw.last() == rec.0@);
        }
        upsert_entry(&mut entries, rec.0);
        pos = rec.1;
        i = i + 1;
    }

    let tail = match pr_tail(text, pos) {
        Err(e) => {
            return Err(e);
        },
        Ok(x) => x,
    };

    let s = Snapshot {
        file_hashes: entries,
        black_list: tail.4,
        root_path: tail.0,
        hash_type: tail.1,
        uuid: tail.2,
        date_created: tail.3,
    };
    proof {
        let doc = sp_snapshot(text@).unwrap();
        assert(doc.entries == raw);
        assert(s@ =~= import_view(doc));
        lemma_dedup_membership(raw);
        assert forall|k: int| 0 <= k < s@.entries.len() implies s@.entries[k].check_sum.len()
            > 0 by {
            let m = choose|m: int| 0 <= m < raw.len() && dedup_entries(raw)[k] == raw[m];
            assert(raw[m].check_sum.len() > 0);
        }
    }
    Ok(s)
}

/// Parse the provenance fields after the records, to the exact end of
/// the document.
#[verifier::rlimit(100)]
#[verifier::loop_isolation(false)]
fn pr_tail(text: &Vec<char>, pos: usize) -> (r: Result<
    (String, HashType, String, i64, Vec<String>),
    SnapshotError,
>)
    requires
        pos <= text@.len(),
    ensures
        match r {
            Ok(v) => sp_tail(text@.skip(pos as int)) == Some(
                (v.0@, v.1, v.2@, v.3, views_of_strings(v.4@)),
            ),
            Err(e) => sp_tail(text@.skip(pos as int)) is None && e
                == SnapshotError::Serialization,
        },
{
    let root = match pr_str(text, pos) {
        None => {
            return Err(SnapshotError::Serialization);
        },
        Some(x) => x,
    };
    if root.1 >= text.len() {
        return Err(SnapshotError::Serialization);
    }
    let algo_char_read = text[root.1];
    proof {
        assert(text@.skip(root.1 as int)[0] == text@[root.1 as int]);
        assert(text@.skip(root.1 as int).skip(1) =~= text@.skip(root.1 + 1));
    }
    let hash_type = if algo_char_read == 'M' {
        HashType::MD5
    } else if algo_char_read == 'S' {
        HashType::SHA3
    } else if algo_char_read == 'B' {
        HashType::BLAKE3
    } else {
        return Err(SnapshotError::Serialization);
    };
    let uuid = match pr_str(text, root.1 + 1) {
        None => {
            return Err(SnapshotError::Serialization);
        },
        Some(x) => x,
    };
    let date = match pr_i64(text, uuid.1) {
        None => {
            return Err(SnapshotError::Serialization);
        },
        Some(x) => x,
    };
    let bl_count = match pr_fixed(text, date.1, 20) {
        None => {
            return Err(SnapshotError::Serialization);
        },
        Some(x) => x,
    };
    let bn: u64 = bl_count.0;
    let ghost t7 = text@.skip(bl_count.1 as int);

    let mut black_list: Vec<String> = Vec::new();
    let mut bpos = bl_count.1;
    let mut bi: u64 = 0;
    proof {
        assert(views_of_strings(black_list@) =~= Seq::<Seq<char>>::empty());
    }
    while bi < bn
        invariant
            bi <= bn,
            bpos <= text@.len(),
            sp_strs(t7, bi as nat) == Some(
                (views_of_strings(black_list@), text@.skip(bpos as int)),
            ),
        decreases bn - bi,
    {
        let ghost bl_prev = black_list@;
        let entry = match pr_str(text, bpos) {
            None => {
                proof {
                    lemma_strs_fail(t7, bi as nat, bn as nat, text@.skip(bpos as int));
                }
                return Err(SnapshotError::Serialization);
            },
            Some(x) => x,
        };
        black_list.push(entry.0);
        proof {
            assert(views_of_strings(black_list@) =~= views_of_strings(bl_prev).push(entry.0@));
        }
        bpos = entry.1;
        bi = bi + 1;
    }

    if bpos != text.len() {
        return Err(SnapshotError::Serialization);
    }
    proof {
        assert(text@.skip(bpos as int).len() == 0);
    }
    Ok((root.0, hash_type, uuid.0, date.0, black_list))
}

/// Flatten a snapshot into its persisted document text.
pub fn export_document(s: &Snapshot) -> (out: String)
    ensures
        out@ == spec_enc_snapshot(s@),
{
    let chars = encode_snapshot(s);
    crate::snapshot::chars_to_string(&chars)
}

/// Reconstruct a snapshot from persisted document text.  A malformed
/// document is an explicit failure, never a silently substituted default.
pub fn import_document(text: &str) -> (r: Result<Snapshot, SnapshotError>)
    ensures
        match r {
            Ok(s) => {
                &&& sp_snapshot(text@) is Some
                &&& s@ == import_view(sp_snapshot(text@).unwrap())
                &&& s.wf()
            },
            Err(e) => sp_snapshot(text@) is None && e == SnapshotError::Serialization,
        },
{
    let cs = str_to_chars(text);
    decode_snapshot(&cs)
}

proof fn lemma_rt_fixed(v: nat, w: nat, rest: Seq<char>)
    requires
        v < pow10(w),
        v <= u64::MAX,
    ensures
        sp_fixed(spec_enc_fixed(v, w) + rest, w) == Some((v, rest)),
{
    let t = spec_enc_fixed(v, w) + rest;
    lemma_enc_fixed_len(v, w);
    assert(t.take(w as int) =~= spec_enc_fixed(v, w));
    lemma_fixed_roundtrip(v, w);
    assert(t.skip(w as int) =~= rest);
}

proof fn lemma_rt_str(s: Seq<char>, rest: Seq<char>)
    requires
        s.len() <= u64::MAX,
    ensures
        sp_str(spec_enc_str(s) + rest) == Some((s, rest)),
{
    let t = spec_enc_str(s) + rest;
    assert(t =~= spec_enc_fixed(s.len(), 20) + (s + rest));
    lemma_pow10_20();
    lemma_rt_fixed(s.len(), 20, s + rest);
    let r = s + rest;
    assert(r.take(s.len() as int) =~= s);
    assert(r.skip(s.len() as int) =~= rest);
}

proof fn lemma_rt_hex(b: Seq<u8>)
    ensures
        spec_enc_hex(b).len() == 2 * b.len(),
        spec_hex_bytes(spec_enc_hex(b)) == Some(b),
    decreases b.len(),
{
    if b.len() == 0 {
        assert(spec_hex_bytes(spec_enc_hex(b)).unwrap() =~= b);
    } else {
        lemma_rt_hex(b.drop_last());
        let s = spec_enc_hex(b);
        let last = b.last();
        assert(s.take(s.len() - 2) =~= spec_enc_hex(b.drop_last()));
        assert(s[s.len() - 2] == spec_hex_char(last as int / 16));
        assert(s[s.len() - 1] == spec_hex_char(last as int % 16));
        lemma_hex_roundtrip(last as int / 16);
        lemma_hex_roundtrip(last as int % 16);
        assert((last as int / 16) * 16 + last as int % 16 == last as int);
        assert(spec_hex_bytes(s).unwrap() =~= b);
    }
}

proof fn lemma_rt_bytes(b: Seq<u8>, rest: Seq<char>)
    requires
        b.len() <= u64::MAX,
    ensures
        sp_bytes(spec_enc_bytes(b) + rest) == Some((b, rest)),
{
    let t = spec_enc_bytes(b) + rest;
    lemma_rt_hex(b);
    assert(t =~= spec_enc_fixed(b.len(), 20) + (spec_enc_hex(b) + rest));
    lemma_pow10_20();
    lemma_rt_fixed(b.len(), 20, spec_enc_hex(b) + rest);
    let r = spec_enc_hex(b) + rest;
    assert(r.take(2 * b.len() as int) =~= spec_enc_hex(b));
    assert(r.skip(2 * b.len() as int) =~= rest);
}

proof fn lemma_rt_i64(n: i64, rest: Seq<char>)
    ensures
        sp_i64(spec_enc_i64(n) + rest) == Some((n, rest)),
{
    let t = spec_enc_i64(n) + rest;
    lemma_pow10_19();
    assert(i64_mag(n) <= 0x8000000000000000);
    lemma_rt_fixed(i64_mag(n), 19, rest);
    assert(t.skip(1) =~= spec_enc_fixed(i64_mag(n), 19) + rest);
    assert(t[0] == (if n < 0 {
        '-'
    } else {
        '+'
    }));
    if n >= 0 {
        assert(i64_mag(n) <= i64::MAX as nat);
        assert((i64_mag(n) as i64) == n);
    } else {
        assert(((-(i64_mag(n) as int)) as i64) == n);
    }
}

proof fn lemma_rt_record(e: FileMetadataV, rest: Seq<char>)
    requires
        e.path.len() <= u64::MAX,
        e.check_sum.len() <= u64::MAX,
        e.check_sum.len() > 0,
    ensures
        sp_record(spec_enc_record(e) + rest) == Some((e, rest)),
{
    let t = spec_enc_record(e) + rest;
    let r5 = spec_enc_i64(e.mtime) + rest;
    let r4 = spec_enc_i64(e.ctime) + r5;
    let r3 = spec_enc_fixed(e.ino as nat, 20) + r4;
    let r2 = spec_enc_fixed(e.size as nat, 20) + r3;
    let r1 = spec_enc_bytes(e.check_sum) + r2;
    assert(t =~= spec_enc_str(e.path) + r1);
    lemma_rt_str(e.path, r1);
    lemma_rt_bytes(e.check_sum, r2);
    lemma_pow10_20();
    lemma_rt_fixed(e.size as nat, 20, r3);
    lemma_rt_fixed(e.ino as nat, 20, r4);
    lemma_rt_i64(e.ctime, r5);
    lemma_rt_i64(e.mtime, rest);
    assert(sp_record(t).unwrap().0 =~= e);
}

proof fn lemma_rt_records(es: Seq<FileMetadataV>, rest: Seq<char>)
    requires
        forall|i: int| #![trigger es[i]] 0 <= i < es.len() ==> es[i].path.len() <= u64::MAX
            && es[i].check_sum.len() <= u64::MAX && es[i].check_sum.len() > 0,
    ensures
        sp_records(spec_enc_records(es) + rest, es.len()) == Some((es, rest)),
    decreases es.len(),
{
    if es.len() == 0 {
        assert(spec_enc_records(es) + rest =~= rest);
    } else {
        let last = es.last();
        let init = es.drop_last();
        assert(forall|i: int| #![trigger init[i]] 0 <= i < init.len() ==> init[i] == es[i]);
        assert(spec_enc_records(es) + rest =~= spec_enc_records(init) + (spec_enc_record(last)
            + rest));
        lemma_rt_records(init, spec_enc_record(last) + rest);
        lemma_rt_record(last, rest);
        assert(init.push(last) =~= es);
    }
}

proof fn lemma_rt_strs(bl: Seq<Seq<char>>, rest: Seq<char>)
    requires
        forall|i: int| #![trigger bl[i]] 0 <= i < bl.len() ==> bl[i].len() <= u64::MAX,
    ensures
        sp_strs(spec_enc_strs(bl) + rest, bl.len()) == Some((bl, rest)),
    decreases bl.len(),
{
    if bl.len() == 0 {
        assert(spec_enc_strs(bl) + rest =~= rest);
    } else {
        let last = bl.last();
        let init = bl.drop_last();
        assert(forall|i: int| #![trigger init[i]] 0 <= i < init.len() ==> init[i] == bl[i]);
        assert(spec_enc_strs(bl) + rest =~= spec_enc_strs(init) + (spec_enc_str(last) + rest));
        lemma_rt_strs(init, spec_enc_str(last) + rest);
        lemma_rt_str(last, rest);
        assert(init.push(last) =~= bl);
    }
}

proof fn lemma_dedup_identity(es: Seq<FileMetadataV>)
    requires
        unique_paths(es),
    ensures
        dedup_entries(es) == es,
    decreases es.len(),
{
    if es.len() > 0 {
        let init = es.drop_last();
        let last = es.last();
        assert(forall|i: int| #![trigger init[i]] 0 <= i < init.len() ==> init[i] == es[i]);
        lemma_dedup_identity(init);
        if has_path(init, last.path) {
            let i = choose|i: int| 0 <= i < init.len() && init[i].path == last.path;
            assert(es[i].path == es[es.len() - 1].path);
            assert(false);
        }
        assert(spec_upsert(init, last) =~= es);
    }
}

/// Bounds under which a snapshot value is representable in a document:
/// every count and length fits a fixed-width field.  Every snapshot the
/// executable code builds satisfies them.
pub open spec fn bounded_v(v: SnapshotV) -> bool {
    &&& v.root_path.len() <= u64::MAX
    &&& v.uuid.len() <= u64::MAX
    &&& v.entries.len() <= u64::MAX
    &&& v.black_list.len() <= u64::MAX
    &&& forall|i: int| #![trigger v.entries[i]] 0 <= i < v.entries.len()
        ==> v.entries[i].path.len() <= u64::MAX && v.entries[i].check_sum.len() <= u64::MAX
    &&& forall|i: int| #![trigger v.black_list[i]] 0 <= i < v.black_list.len()
        ==> v.black_list[i].len() <= u64::MAX
}

/// Law: the document round trip is exact.  Parsing the document encoded
/// from a well-formed snapshot value succeeds, yields that very value —
/// every record field, the root path, the algorithm, the uuid, the
/// creation time and the blacklist — and rebuilding the map changes
/// nothing.
#[verifier::rlimit(100)]
#[verifier::spinoff_prover]
pub proof fn lemma_document_roundtrip(v: SnapshotV)
    requires
        wf_v(v),
        bounded_v(v),
    ensures
        sp_snapshot(spec_enc_snapshot(v)) == Some(v),
        import_view(v) == v,
{
    let t = spec_enc_snapshot(v);
    let r7 = spec_enc_strs(v.black_list);
    let r6 = spec_enc_fixed(v.black_list.len(), 20) + r7;
    let r5 = spec_enc_i64(v.date_created) + r6;
    let r4 = spec_enc_str(v.uuid) + r5;
    let r3 = seq![spec_algo_char(v.hash_type)] + r4;
    let r2 = spec_enc_str(v.root_path) + r3;
    let r1 = spec_enc_records(v.entries) + r2;
    let r0 = spec_enc_fixed(v.entries.len(), 20) + r1;
    assert(t =~= spec_magic() + r0);
    assert(t.take(8) =~= spec_magic());
    assert(t.skip(8) =~= r0);
    lemma_pow10_20();
    lemma_rt_fixed(v.entries.len(), 20, r1);
    lemma_rt_records(v.entries, r2);
    lemma_rt_str(v.root_path, r3);
    assert(r3[0] == spec_algo_char(v.hash_type));
    assert(r3.skip(1) =~= r4);
    assert(sp_algo(r3) == Some((v.hash_type, r4)));
    lemma_rt_str(v.uuid, r5);
    lemma_rt_i64(v.date_created, r6);
    lemma_rt_fixed(v.black_list.len(), 20, r7);
    assert(r7 =~= spec_enc_strs(v.black_list) + Seq::<char>::empty());
    lemma_rt_strs(v.black_list, Seq::<char>::empty());
    assert(sp_snapshot(t).unwrap() =~= v);
    lemma_dedup_identity(v.entries);
    assert(import_view(v) =~= v);
}

} // verus!

//! Compound File Binary (OLE2) containers: sector chains, the directory,
//! and the named streams it lists.

use vstd::prelude::*;
use vstd::slice::slice_subrange;
use std::io::Read;
use crate::altium::bytes::{le16, le32, le64, read_u16_le, read_u32_le, read_u64_le};
use crate::altium::error::AltiumImportError;
use crate::text::{str_eq, to_string};

verus! {

/// End-of-chain marker in a sector table.
pub const ENDOFCHAIN: u32 = 0xFFFF_FFFE;

/// Free-sector marker in a sector table.
pub const FREESECT: u32 = 0xFFFF_FFFF;

/// Size of a mini-stream sector.
pub const MINI_SECTOR_SIZE: u64 = 64;

/// Lossy UTF-16 decoding, as `char::decode_utf16` with each error
/// replaced by U+FFFD: a unit outside the surrogate range is its own
/// character; a high surrogate followed by a low one is one supplementary
/// character; any other surrogate unit becomes U+FFFD.
pub open spec fn spec_utf16_lossy(u: Seq<u16>) -> Seq<char>
    decreases u.len(),
{
    if u.len() == 0 {
        Seq::empty()
    } else if u[0] < 0xD800 || u[0] > 0xDFFF {
        seq![u[0] as char] + spec_utf16_lossy(u.drop_first())
    } else if u[0] <= 0xDBFF && u.len() >= 2 && 0xDC00 <= u[1] <= 0xDFFF {
        seq![(0x10000 + (u[0] - 0xD800) * 0x400 + (u[1] - 0xDC00)) as char] + spec_utf16_lossy(
            u.skip(2),
        )
    } else {
        seq!['\u{FFFD}'] + spec_utf16_lossy(u.drop_first())
    }
}

/// What zlib decompression of the bytes yields, if it succeeds.
pub uninterp spec fn spec_zlib_inflate(b: Seq<u8>) -> Option<Seq<u8>>;

/// `String::from_utf16_lossy`: decodes UTF-16 code units, replacing each
/// unpaired surrogate with U+FFFD (see [`spec_utf16_lossy`]).
#[verifier::external_body]
fn utf16_lossy(units: &Vec<u16>) -> (r: String)
    ensures
        r@ == spec_utf16_lossy(units@),
{
    String::from_utf16_lossy(units)
}

/// `flate2::read::ZlibDecoder` read to the end: the decompressed bytes, or
/// `None` when the data is not a valid zlib stream.
#[verifier::external_body]
fn zlib_inflate(raw: &[u8]) -> (r: Option<Vec<u8>>)
    ensures
        match r {
            Some(v) => spec_zlib_inflate(raw@) == Some(v@),
            None => spec_zlib_inflate(raw@) is None,
        },
{
    let mut decoder = flate2::read::ZlibDecoder::new(raw);
    let mut out = Vec::new();
    match decoder.read_to_end(&mut out) {
        Ok(_) => Some(out),
        Err(_) => None,
    }
}

/// Two to the power `k`.
pub open spec fn pow2(k: nat) -> nat
    decreases k,
{
    if k == 0 {
        1
    } else {
        2 * pow2((k - 1) as nat)
    }
}

/// The bytes of a sector chain followed from sector `curr` on, given the
/// bytes `acc` read so far after `visited` sectors. A sector `s` sits at
/// `(s + base) * ss`; the walk stops at a marker, at a sector outside the
/// table or the data, after more sectors than the table has entries, or
/// once `size + ss` bytes are read.
pub open spec fn chain_from(
    src: Seq<u8>,
    table: Seq<u32>,
    ss: nat,
    base: nat,
    curr: u32,
    size: nat,
    acc: Seq<u8>,
    visited: nat,
) -> Seq<u8>
    decreases table.len() + 1 - visited,
{
    if curr == ENDOFCHAIN || curr == FREESECT || curr >= table.len() || visited > table.len() {
        acc
    } else {
        let off = (curr + base) * ss;
        if off >= src.len() {
            acc
        } else {
            let end = if off + ss < src.len() {
                off + ss
            } else {
                src.len() as int
            };
            let acc2 = acc + src.subrange(off as int, end);
            if visited + 1 > table.len() || acc2.len() >= size + ss {
                acc2
            } else {
                chain_from(src, table, ss, base, table[curr as int], size, acc2, visited + 1)
            }
        }
    }
}

/// The first `size` bytes (at most) of the chain starting at `start`.
pub open spec fn spec_chain(
    src: Seq<u8>,
    table: Seq<u32>,
    ss: nat,
    base: nat,
    start: u32,
    size: nat,
) -> Seq<u8> {
    let all = chain_from(src, table, ss, base, start, size, Seq::empty(), 0);
    if all.len() > size {
        all.take(size as int)
    } else {
        all
    }
}

/// Appends `src[from..to]` to `acc`.
fn append_range(acc: &mut Vec<u8>, src: &[u8], from: usize, to: usize)
    requires
        from <= to <= src@.len(),
    ensures
        final(acc)@ == old(acc)@ + src@.subrange(from as int, to as int),
{
    let mut i = from;
    while i < to
        invariant
            from <= i <= to <= src@.len(),
            acc@ == old(acc)@ + src@.subrange(from as int, i as int),
        decreases to - i,
    {
        acc.push(src[i]);
        assert(src@.subrange(from as int, i + 1) =~= src@.subrange(from as int, i as int).push(
            src@[i as int],
        ));
        i += 1;
    }
}

/// Reads the chain starting at `start` (see [`spec_chain`]).
fn read_chain(src: &[u8], table: &Vec<u32>, ss: u64, base: u64, start: u32, size: u64) -> (r: Vec<
    u8,
>)
    requires
        1 <= ss <= 65536,
        base <= 1,
    ensures
        r@ == spec_chain(src@, table@, ss as nat, base as nat, start, size as nat),
{
    let ghost full = chain_from(src@, table@, ss as nat, base as nat, start, size as nat, Seq::empty(), 0);
    let mut acc: Vec<u8> = Vec::new();
    let mut curr = start;
    let mut visited: u128 = 0;
    loop
        invariant_except_break
            visited <= table.len(),
            full == chain_from(src@, table@, ss as nat, base as nat, curr, size as nat, acc@, visited as nat),
        invariant
            1 <= ss <= 65536,
            base <= 1,
        ensures
            full == acc@,
        decreases table.len() + 1 - visited,
    {
        if curr == ENDOFCHAIN || curr == FREESECT || curr as usize >= table.len() {
            break;
        }
        assert((curr as u64 + base) * ss <= 0x1_0000_0001 * 65536) by (nonlinear_arith)
            requires
                curr as u64 + base <= 0x1_0000_0001,
                ss <= 65536,
        ;
        let off: u64 = (curr as u64 + base) * ss;
        if off >= src.len() as u64 {
            break;
        }
        let end: usize = if off + ss < src.len() as u64 {
            (off + ss) as usize
        } else {
            src.len()
        };
        append_range(&mut acc, src, off as usize, end);
        curr = table[curr as usize];
        visited += 1;
        if visited > table.len() as u128 || acc.len() as u128 >= size as u128 + ss as u128 {
            break;
        }
    }
    if acc.len() as u128 > size as u128 {
        acc.truncate(size as usize);
    }
    acc
}

/// A sector shift of 9 means 512-byte sectors, 12 means 4096-byte ones.
pub proof fn law_sector_sizes(data: Seq<u8>)
    ensures
        le16(data, 30) == 9 ==> sector_size(data) == 512,
        le16(data, 30) == 12 ==> sector_size(data) == 4096,
{
    reveal_with_fuel(pow2, 13);
}

/// A chain of one sector (its table entry ends the chain) reads the first
/// `size` bytes of that sector, which sits at `(sector + base) * ss`.
pub proof fn law_one_sector_chain(src: Seq<u8>, table: Seq<u32>, ss: nat, base: nat, start: u32, size: nat)
    requires
        start < table.len(),
        start != ENDOFCHAIN,
        start != FREESECT,
        table[start as int] == ENDOFCHAIN,
        ss > 0,
        size <= ss,
        (start + base + 1) * ss <= src.len(),
    ensures
        spec_chain(src, table, ss, base, start, size) == src.subrange(
            (start + base) * ss,
            (start + base) * ss + size,
        ),
{
    let off = (start + base) * ss;
    assert(off + ss == (start + base + 1) * ss) by (nonlinear_arith)
        requires
            off == (start + base) * ss,
    ;
    let acc2 = Seq::<u8>::empty() + src.subrange(off as int, off + ss);
    assert(acc2 =~= src.subrange(off as int, off + ss));
    if off + ss < src.len() {
    } else {
        assert(src.subrange(off as int, src.len() as int) =~= src.subrange(off as int, off + ss));
    }
    assert(acc2.take(size as int) =~= src.subrange(off as int, off + size));
    assert(chain_from(src, table, ss, base, start, size, Seq::empty(), 0) == acc2) by {
        if !(1 > table.len() || acc2.len() >= size + ss) {
            assert(chain_from(src, table, ss, base, start, size, Seq::empty(), 0) == chain_from(
                src,
                table,
                ss,
                base,
                ENDOFCHAIN,
                size,
                acc2,
                1,
            ));
        }
    }
    if size == ss {
        assert(acc2 =~= src.subrange(off as int, off + size));
    }
}

/// A chain of two sectors, where the first sector's table entry names the
/// second and the second's ends the chain, reads the first sector and
/// then the second, cut to `size` bytes.
pub proof fn law_two_sector_chain(
    src: Seq<u8>,
    table: Seq<u32>,
    ss: nat,
    base: nat,
    a: u32,
    b: u32,
    size: nat,
)
    requires
        table.len() >= 2,
        a < table.len(),
        b < table.len(),
        a != ENDOFCHAIN && a != FREESECT && b != ENDOFCHAIN && b != FREESECT,
        table[a as int] == b,
        table[b as int] == ENDOFCHAIN,
        ss > 0,
        ss < size <= 2 * ss,
        (a + base + 1) * ss <= src.len(),
        (b + base + 1) * ss <= src.len(),
    ensures
        spec_chain(src, table, ss, base, a, size) == (src.subrange((a + base) * ss, (a + base) * ss + ss)
            + src.subrange((b + base) * ss, (b + base) * ss + ss)).take(size as int),
{
    let oa = (a + base) * ss;
    let ob = (b + base) * ss;
    assert(oa + ss == (a + base + 1) * ss) by (nonlinear_arith)
        requires
            oa == (a + base) * ss,
    ;
    assert(ob + ss == (b + base + 1) * ss) by (nonlinear_arith)
        requires
            ob == (b + base) * ss,
    ;
    let sa = src.subrange(oa as int, oa + ss);
    let sb = src.subrange(ob as int, ob + ss);
    if oa + ss >= src.len() {
        assert(src.subrange(oa as int, src.len() as int) =~= sa);
    }
    if ob + ss >= src.len() {
        assert(src.subrange(ob as int, src.len() as int) =~= sb);
    }
    let acc1 = Seq::<u8>::empty() + sa;
    assert(acc1 =~= sa);
    assert(chain_from(src, table, ss, base, a, size, Seq::empty(), 0) == chain_from(
        src,
        table,
        ss,
        base,
        b,
        size,
        sa,
        1,
    ));
    assert((sa + sb).len() == 2 * ss);
    assert(chain_from(src, table, ss, base, b, size, sa, 1) == chain_from(
        src,
        table,
        ss,
        base,
        ENDOFCHAIN,
        size,
        sa + sb,
        2,
    ));
    assert(chain_from(src, table, ss, base, b, size, sa, 1) == sa + sb);
}

/// Stream bytes that do not look like zlib are read as they are; zlib
/// bytes that decompress to something are read decompressed.
pub proof fn law_stream_bytes(raw: Seq<u8>)
    ensures
        !looks_zlib(raw) ==> stream_bytes(raw) == raw,
        spec_zlib_inflate(raw) matches Some(d) ==> (looks_zlib(raw) && d.len() > 0 ==> stream_bytes(
            raw,
        ) == d),
        looks_zlib(raw) && spec_zlib_inflate(raw) is None ==> stream_bytes(raw) == raw,
{
}

/// Setting a stream keeps every other stream, and the name then reads
/// back the new content.
pub proof fn law_entries_insert(es: Seq<(Seq<char>, Seq<u8>)>, k: Seq<char>, v: Seq<u8>, other: Seq<char>)
    ensures
        stream_lookup(entries_insert(es, k, v), k) == Some(v),
        other != k ==> stream_lookup(entries_insert(es, k, v), other) == stream_lookup(es, other),
{
    let r = entries_insert(es, k, v);
    if exists|i: int| first_key_index(es, k, i) {
        let i = choose|i: int| first_key_index(es, k, i);
        assert(first_key_index(r, k, i));
        let j = choose|j: int| first_key_index(r, k, j);
        assert(j == i) by {
            if j < i {
                assert(r[j] == es[j]);
            } else if j > i {
                assert(r[i].0 == k);
            }
        }
        if other != k {
            assert forall|t: int| first_key_index(r, other, t) <==> first_key_index(es, other, t) by {
                if 0 <= t < es.len() {
                    assert forall|u: int| 0 <= u < t implies (r[u].0 != other <==> es[u].0 != other) by {
                        if u == i {
                            assert(es[u].0 == k);
                        }
                    }
                    if t == i {
                        assert(es[t].0 == k);
                    }
                }
            }
            if exists|t: int| first_key_index(es, other, t) {
                let t1 = choose|t: int| first_key_index(es, other, t);
                let t2 = choose|t: int| first_key_index(r, other, t);
                assert(t1 == t2) by {
                    if t1 < t2 {
                        assert(r[t1].0 == other);
                    } else if t2 < t1 {
                        assert(es[t2].0 == other);
                    }
                }
                assert(t1 != i) by {
                    assert(es[i].0 == k);
                }
            }
        }
    } else {
        let n = es.len() as int;
        assert(first_key_index(r, k, n)) by {
            assert forall|j: int| 0 <= j < n implies r[j].0 != k by {
                if es[j].0 == k {
                    lemma_first_key_exists(es, k, j);
                }
            }
        }
        let j = choose|j: int| first_key_index(r, k, j);
        assert(j == n) by {
            if j < n {
                assert(r[j] == es[j]);
                lemma_first_key_exists(es, k, j);
            }
        }
        if other != k {
            assert forall|t: int| first_key_index(r, other, t) <==> first_key_index(es, other, t) by {
                if 0 <= t < es.len() {
                    assert forall|u: int| 0 <= u < t implies r[u] == es[u] by {}
                    assert(r[t] == es[t]);
                }
                if t == n {
                    assert(r[n].0 == k);
                }
            }
            if exists|t: int| first_key_index(es, other, t) {
                let t1 = choose|t: int| first_key_index(es, other, t);
                let t2 = choose|t: int| first_key_index(r, other, t);
                assert(t1 == t2) by {
                    if t1 < t2 {
                        assert(r[t1].0 == other);
                    } else if t2 < t1 {
                        assert(es[t2].0 == other);
                    }
                }
            }
        }
    }
}

proof fn lemma_first_key_exists(es: Seq<(Seq<char>, Seq<u8>)>, k: Seq<char>, j: int)
    requires
        0 <= j < es.len(),
        es[j].0 == k,
    ensures
        exists|i: int| first_key_index(es, k, i),
    decreases j,
{
    if forall|u: int| 0 <= u < j ==> es[u].0 != k {
        assert(first_key_index(es, k, j));
    } else {
        let u = choose|u: int| 0 <= u < j && es[u].0 == k;
        lemma_first_key_exists(es, k, u);
    }
}

/// A stream entry smaller than 4096 bytes is read from the mini stream in
/// 64-byte sectors (when the container has one); a larger entry, or any
/// entry of a container without a mini stream, from the FAT's sectors.
pub proof fn law_entry_content_source(l: CfbLayout, es: Seq<(Seq<char>, Seq<u8>)>, i: int)
    requires
        ({
            let e = l.dir.subrange(i * 128, i * 128 + 128);
            e[66] == 2 && le16(e, 64) > 2
        }),
    ensures
        ({
            let e = l.dir.subrange(i * 128, i * 128 + 128);
            let start = le32(e, 116) as u32;
            let size = le64(e, 120);
            &&& (size < 4096 && l.mini_stream.len() > 0 && l.mini_fat.len() > 0) ==> entry_step(
                l,
                es,
                i,
            ) == entries_insert(es, entry_name(e), spec_chain(l.mini_stream, l.mini_fat, 64, 0, start, size))
            &&& !(size < 4096 && l.mini_stream.len() > 0 && l.mini_fat.len() > 0) ==> entry_step(
                l,
                es,
                i,
            ) == entries_insert(es, entry_name(e), spec_chain(l.data, l.fat, l.ss, 1, start, size))
        }),
{
}

} // verus!

verus! {

/// The eight signature bytes of a Compound File Binary header.
pub open spec fn cfb_magic() -> Seq<u8> {
    seq![0xD0u8, 0xCFu8, 0x11u8, 0xE0u8, 0xA1u8, 0xB1u8, 0x1Au8, 0xE1u8]
}

/// Whether `data` starts with a header this reader accepts: at least one
/// 512-byte header sector, the signature, and a sector shift of at most
/// 16 (sectors of at most 64 KiB).
pub open spec fn header_ok(data: Seq<u8>) -> bool {
    data.len() >= 512 && data.take(8) == cfb_magic() && le16(data, 30) <= 16
}

/// The sector size that the header declares.
pub open spec fn sector_size(data: Seq<u8>) -> nat {
    pow2(le16(data, 30))
}

/// The FAT sector numbers among the first `k` header DIFAT entries:
/// markers are skipped, and reading stops once `num` sectors are listed.
pub open spec fn difat(data: Seq<u8>, num: nat, k: nat) -> Seq<u32>
    decreases k,
{
    if k == 0 {
        Seq::empty()
    } else {
        let prev = difat(data, num, (k - 1) as nat);
        if prev.len() >= num {
            prev
        } else {
            let sec = le32(data, 76 + 4 * (k - 1)) as u32;
            if sec != FREESECT && sec != ENDOFCHAIN {
                prev.push(sec)
            } else {
                prev
            }
        }
    }
}

/// The little-endian 32-bit words of `b` from `off`, `n` of them.
pub open spec fn words_at(b: Seq<u8>, off: int, n: nat) -> Seq<u32> {
    Seq::new(n, |j: int| le32(b, off + 4 * j) as u32)
}

/// The FAT built from the listed sectors: each sector that lies wholly
/// inside the data contributes its `ss / 4` words, in order.
pub open spec fn fat_of(data: Seq<u8>, ss: nat, locs: Seq<u32>) -> Seq<u32>
    decreases locs.len(),
{
    if locs.len() == 0 {
        Seq::empty()
    } else {
        let prev = fat_of(data, ss, locs.drop_last());
        let off = (locs.last() + 1) * ss;
        if off + ss <= data.len() {
            prev + words_at(data, off as int, ss / 4)
        } else {
            prev
        }
    }
}

/// The code units before the first zero unit.
pub open spec fn until_zero(u: Seq<u16>) -> Seq<u16>
    decreases u.len(),
{
    if u.len() == 0 {
        Seq::empty()
    } else if u[0] == 0 {
        Seq::empty()
    } else {
        seq![u[0]] + until_zero(u.drop_first())
    }
}

/// The name of a directory entry: the UTF-16 units of its first
/// `min(name_len, 64)` bytes, up to the first zero unit.
pub open spec fn entry_name(e: Seq<u8>) -> Seq<char> {
    let len = if le16(e, 64) < 64 {
        le16(e, 64)
    } else {
        64
    };
    spec_utf16_lossy(until_zero(Seq::new(len / 2, |j: int| le16(e, 2 * j) as u16)))
}

/// `i` is the first position of key `k` in `es`.
pub open spec fn first_key_index(es: Seq<(Seq<char>, Seq<u8>)>, k: Seq<char>, i: int) -> bool {
    &&& 0 <= i < es.len()
    &&& es[i].0 == k
    &&& forall|j: int| 0 <= j < i ==> es[j].0 != k
}

/// `es` with the entry for key `k` set to `v`: an existing entry keeps
/// its place, a new one goes to the end.
pub open spec fn entries_insert(es: Seq<(Seq<char>, Seq<u8>)>, k: Seq<char>, v: Seq<u8>) -> Seq<
    (Seq<char>, Seq<u8>),
> {
    if exists|i: int| first_key_index(es, k, i) {
        es.update(choose|i: int| first_key_index(es, k, i), (k, v))
    } else {
        es.push((k, v))
    }
}

/// The parts of a container that the directory entries are read against.
pub struct CfbLayout {
    pub data: Seq<u8>,
    pub ss: nat,
    pub fat: Seq<u32>,
    pub dir: Seq<u8>,
    pub mini_stream: Seq<u8>,
    pub mini_fat: Seq<u32>,
}

/// The FAT, directory, mini stream and mini FAT of a valid container.
pub open spec fn layout(data: Seq<u8>) -> CfbLayout {
    let ss = sector_size(data);
    let fat = fat_of(data, ss, difat(data, le32(data, 44), 109));
    let dir = spec_chain(data, fat, ss, 1, le32(data, 48) as u32, 1024 * 1024);
    let n = dir.len() / 128;
    let root_start: u32 = if n > 0 {
        le32(dir, 116) as u32
    } else {
        0
    };
    let root_size: nat = if n > 0 {
        le64(dir, 120)
    } else {
        0
    };
    let mini_stream = if root_start != ENDOFCHAIN && root_size > 0 {
        spec_chain(data, fat, ss, 1, root_start, root_size)
    } else {
        Seq::empty()
    };
    let mini_fat = if le32(data, 60) as u32 != ENDOFCHAIN {
        let b = spec_chain(data, fat, ss, 1, le32(data, 60) as u32, 65536);
        words_at(b, 0, b.len() / 4)
    } else {
        Seq::empty()
    };
    CfbLayout { data, ss, fat, dir, mini_stream, mini_fat }
}

/// The streams after directory entry `i`: a stream entry (type 2, name
/// longer than 2 bytes) adds its name and content; content under 4096
/// bytes comes from the mini stream when there is one.
pub open spec fn entry_step(l: CfbLayout, es: Seq<(Seq<char>, Seq<u8>)>, i: int) -> Seq<
    (Seq<char>, Seq<u8>),
> {
    let e = l.dir.subrange(i * 128, i * 128 + 128);
    let start = le32(e, 116) as u32;
    let size = le64(e, 120);
    if e[66] == 2 && le16(e, 64) > 2 {
        let content = if size < 4096 && l.mini_stream.len() > 0 && l.mini_fat.len() > 0 {
            spec_chain(l.mini_stream, l.mini_fat, MINI_SECTOR_SIZE as nat, 0, start, size)
        } else {
            spec_chain(l.data, l.fat, l.ss, 1, start, size)
        };
        entries_insert(es, entry_name(e), content)
    } else {
        es
    }
}

/// The streams read from directory entries `1..k`.
pub open spec fn entries_upto(l: CfbLayout, k: nat) -> Seq<(Seq<char>, Seq<u8>)>
    decreases k,
{
    if k <= 1 {
        Seq::empty()
    } else {
        entry_step(l, entries_upto(l, (k - 1) as nat), k - 1)
    }
}

/// The named streams of a valid container, in directory order.
pub open spec fn spec_streams(data: Seq<u8>) -> Seq<(Seq<char>, Seq<u8>)> {
    entries_upto(layout(data), layout(data).dir.len() / 128)
}

/// A Compound File Binary container: its named streams, each name once.
#[derive(Debug)]
pub struct CfbContainer {
    pub streams: Vec<(String, Vec<u8>)>,
}

impl View for CfbContainer {
    type V = Seq<(Seq<char>, Seq<u8>)>;

    open spec fn view(&self) -> Seq<(Seq<char>, Seq<u8>)> {
        self.streams@.map_values(|e: (String, Vec<u8>)| (e.0@, e.1@))
    }
}

} // verus!

verus! {

fn words_into(out: &mut Vec<u32>, b: &[u8], off: usize, n: usize)
    requires
        off + 4 * n <= b@.len(),
    ensures
        final(out)@ == old(out)@ + words_at(b@, off as int, n as nat),
{
    let blen = b.len();
    let mut t: usize = 0;
    while t < n
        invariant
            t <= n,
            blen == b@.len(),
            off + 4 * n <= b@.len(),
            out@ == old(out)@ + words_at(b@, off as int, t as nat),
        decreases n - t,
    {
        let w = read_u32_le(b, off + 4 * t);
        out.push(w);
        assert(words_at(b@, off as int, (t + 1) as nat) =~= words_at(b@, off as int, t as nat).push(w));
        t += 1;
    }
}

fn until_zero_exec(u: &Vec<u16>) -> (r: Vec<u16>)
    ensures
        r@ == until_zero(u@),
{
    let mut out: Vec<u16> = Vec::new();
    let mut j: usize = 0;
    assert(u@.skip(0) =~= u@);
    while j < u.len() && u[j] != 0
        invariant
            j <= u.len(),
            out@ == u@.take(j as int),
            until_zero(u@) == u@.take(j as int) + until_zero(u@.skip(j as int)),
        decreases u.len() - j,
    {
        assert(u@.skip(j as int).drop_first() =~= u@.skip(j + 1));
        assert(u@.skip(j as int)[0] == u@[j as int]);
        out.push(u[j]);
        assert(u@.take(j + 1) =~= u@.take(j as int) + seq![u@[j as int]]);
        j += 1;
    }
    if j < u.len() {
        assert(u@.skip(j as int)[0] == 0);
    }
    assert(u@.take(j as int) + until_zero(u@.skip(j as int)) =~= u@.take(j as int));
    out
}

fn entries_insert_exec(es: &mut Vec<(String, Vec<u8>)>, k: String, v: Vec<u8>)
    ensures
        final(es)@.map_values(|e: (String, Vec<u8>)| (e.0@, e.1@)) == entries_insert(
            old(es)@.map_values(|e: (String, Vec<u8>)| (e.0@, e.1@)),
            k@,
            v@,
        ),
{
    let ghost view0 = es@.map_values(|e: (String, Vec<u8>)| (e.0@, e.1@));
    let mut i: usize = 0;
    while i < es.len()
        invariant
            i <= es.len(),
            es@.map_values(|e: (String, Vec<u8>)| (e.0@, e.1@)) == view0,
            view0 == old(es)@.map_values(|e: (String, Vec<u8>)| (e.0@, e.1@)),
            forall|j: int| 0 <= j < i ==> view0[j].0 != k@,
        decreases es.len() - i,
    {
        if str_eq(es[i].0.as_str(), k.as_str()) {
            assert(first_key_index(view0, k@, i as int));
            let ghost w = choose|w: int| first_key_index(view0, k@, w);
            assert(w == i as int) by {
                if w < i {
                } else if w > i {
                    assert(view0[i as int].0 != k@);
                }
            }
            let ghost kv = k@;
            let ghost vv = v@;
            es.remove(i);
            es.insert(i, (k, v));
            assert(es@.map_values(|e: (String, Vec<u8>)| (e.0@, e.1@)) =~= view0.update(
                i as int,
                (kv, vv),
            ));
            assert(exists|w: int| first_key_index(view0, kv, w));
            assert(entries_insert(view0, kv, vv) == view0.update(i as int, (kv, vv)));
            return;
        }
        i += 1;
    }
    assert(!exists|w: int| first_key_index(view0, k@, w));
    let ghost kv = k@;
    let ghost vv = v@;
    es.push((k, v));
    assert(es@.map_values(|e: (String, Vec<u8>)| (e.0@, e.1@)) =~= view0.push((kv, vv)));
}

} // verus!

verus! {

proof fn lemma_pow2_bound(k: nat)
    requires
        k <= 16,
    ensures
        1 <= pow2(k) <= 65536,
    decreases k,
{
    if k > 0 {
        lemma_pow2_bound((k - 1) as nat);
        lemma_pow2_mono((k - 1) as nat, 15);
        lemma_pow2_15();
    }
}

proof fn lemma_pow2_mono(a: nat, b: nat)
    requires
        a <= b,
    ensures
        pow2(a) <= pow2(b),
    decreases b,
{
    if a < b {
        lemma_pow2_mono(a, (b - 1) as nat);
    }
}

proof fn lemma_pow2_15()
    ensures
        pow2(15) == 32768,
{
    reveal_with_fuel(pow2, 16);
}

fn sector_size_exec(shift: u16) -> (r: u64)
    requires
        shift <= 16,
    ensures
        r == pow2(shift as nat),
        1 <= r <= 65536,
{
    proof {
        lemma_pow2_15();
        lemma_pow2_bound(shift as nat);
    }
    let mut r: u64 = 1;
    let mut k: u16 = 0;
    while k < shift
        invariant
            k <= shift <= 16,
            r == pow2(k as nat),
        decreases shift - k,
    {
        proof {
            lemma_pow2_bound(k as nat);
        }
        r = r * 2;
        k += 1;
    }
    r
}

fn read_difat(data: &[u8], num: u32) -> (r: Vec<u32>)
    requires
        data@.len() >= 512,
    ensures
        r@ == difat(data@, num as nat, 109),
{
    let mut locs: Vec<u32> = Vec::new();
    let mut k: usize = 0;
    while k < 109
        invariant
            k <= 109,
            data@.len() >= 512,
            locs@ == difat(data@, num as nat, k as nat),
        decreases 109 - k,
    {
        if (locs.len() as u64) < num as u64 {
            let sec = read_u32_le(data, 76 + 4 * k);
            if sec != FREESECT && sec != ENDOFCHAIN {
                locs.push(sec);
            }
        }
        k += 1;
    }
    locs
}

fn build_fat(data: &[u8], ss: u64, locs: &Vec<u32>) -> (r: Vec<u32>)
    requires
        1 <= ss <= 65536,
    ensures
        r@ == fat_of(data@, ss as nat, locs@),
{
    let mut fat: Vec<u32> = Vec::new();
    let mut j: usize = 0;
    while j < locs.len()
        invariant
            j <= locs.len(),
            1 <= ss <= 65536,
            fat@ == fat_of(data@, ss as nat, locs@.take(j as int)),
        decreases locs.len() - j,
    {
        assert(locs@.take(j + 1).drop_last() =~= locs@.take(j as int));
        let sec = locs[j];
        assert((sec as u64 + 1) * ss <= 0x1_0000_0001 * 65536) by (nonlinear_arith)
            requires
                sec as u64 + 1 <= 0x1_0000_0001,
                ss <= 65536,
        ;
        let off: u64 = (sec as u64 + 1) * ss;
        if off + ss <= data.len() as u64 {
            words_into(&mut fat, data, off as usize, (ss / 4) as usize);
        }
        j += 1;
    }
    assert(locs@.take(locs.len() as int) =~= locs@);
    fat
}

fn entry_name_exec(dir: &Vec<u8>, base: usize) -> (r: String)
    requires
        base + 128 <= dir@.len(),
    ensures
        r@ == entry_name(dir@.subrange(base as int, base + 128)),
{
    let ghost e = dir@.subrange(base as int, base + 128);
    let dlen = dir.len();
    let name_len = read_u16_le(dir.as_slice(), base + 64);
    assert(le16(e, 64) == le16(dir@, base + 64));
    let len: usize = if name_len < 64 {
        name_len as usize
    } else {
        64
    };
    let mut units: Vec<u16> = Vec::new();
    let mut j: usize = 0;
    while j < len / 2
        invariant
            j <= len / 2,
            len <= 64,
            dlen == dir@.len(),
            base + 128 <= dir@.len(),
            e == dir@.subrange(base as int, base + 128),
            units@ == Seq::new(j as nat, |t: int| le16(e, 2 * t) as u16),
        decreases len / 2 - j,
    {
        let u = read_u16_le(dir.as_slice(), base + 2 * j);
        assert(le16(e, 2 * j) == le16(dir@, base + 2 * j));
        units.push(u);
        assert(units@ =~= Seq::new((j + 1) as nat, |t: int| le16(e, 2 * t) as u16));
        j += 1;
    }
    let name_units = until_zero_exec(&units);
    utf16_lossy(&name_units)
}

impl CfbContainer {
    /// Parses a Compound File Binary container (see [`spec_streams`]):
    /// `InvalidCfbHeader` exactly when the header is not acceptable (see
    /// [`header_ok`]), else the streams that the directory lists.
    pub fn parse(data: &[u8]) -> (r: Result<Self, AltiumImportError>)
        ensures
            match r {
                Ok(c) => header_ok(data@) && c@ == spec_streams(data@),
                Err(e) => !header_ok(data@) && e == AltiumImportError::InvalidCfbHeader,
            },
    {
        if data.len() < 512 {
            return Err(AltiumImportError::InvalidCfbHeader);
        }
        let magic: [u8; 8] = [0xD0, 0xCF, 0x11, 0xE0, 0xA1, 0xB1, 0x1A, 0xE1];
        let mut i: usize = 0;
        while i < 8
            invariant
                i <= 8,
                data@.len() >= 512,
                magic@ == cfb_magic(),
                forall|j: int| 0 <= j < i ==> data@[j] == cfb_magic()[j],
            decreases 8 - i,
        {
            if data[i] != magic[i] {
                assert(data@.take(8)[i as int] != cfb_magic()[i as int]);
                return Err(AltiumImportError::InvalidCfbHeader);
            }
            i += 1;
        }
        assert(data@.take(8) =~= cfb_magic());
        let shift = read_u16_le(data, 30);
        if shift > 16 {
            return Err(AltiumImportError::InvalidCfbHeader);
        }
        let ss = sector_size_exec(shift);
        let ghost l = layout(data@);
        let num_fat = read_u32_le(data, 44);
        let first_dir = read_u32_le(data, 48);
        let first_mini_fat = read_u32_le(data, 60);
        let locs = read_difat(data, num_fat);
        let fat = build_fat(data, ss, &locs);
        assert(fat@ == l.fat);
        let dir = read_chain(data, &fat, ss, 1, first_dir, 1024 * 1024);
        assert(dir@ == l.dir);
        let n = dir.len() / 128;
        let root_start: u32 = if n > 0 {
            read_u32_le(dir.as_slice(), 116)
        } else {
            0
        };
        let root_size: u64 = if n > 0 {
            read_u64_le(dir.as_slice(), 120)
        } else {
            0
        };
        let mini_stream = if root_start != ENDOFCHAIN && root_size > 0 {
            read_chain(data, &fat, ss, 1, root_start, root_size)
        } else {
            Vec::new()
        };
        assert(mini_stream@ == l.mini_stream);
        let mut mini_fat: Vec<u32> = Vec::new();
        if first_mini_fat != ENDOFCHAIN {
            let b = read_chain(data, &fat, ss, 1, first_mini_fat, 65536);
            words_into(&mut mini_fat, b.as_slice(), 0, b.len() / 4);
            assert(mini_fat@ =~= l.mini_fat);
        } else {
            assert(mini_fat@ =~= l.mini_fat);
        }
        let mut streams: Vec<(String, Vec<u8>)> = Vec::new();
        let mut k: usize = 1;
        while k < n
            invariant
                1 <= k,
                n == dir@.len() / 128,
                k <= n || k == 1,
                l == layout(data@),
                header_ok(data@),
                ss == l.ss,
                1 <= ss <= 65536,
                fat@ == l.fat,
                dir@ == l.dir,
                mini_stream@ == l.mini_stream,
                mini_fat@ == l.mini_fat,
                streams@.map_values(|e: (String, Vec<u8>)| (e.0@, e.1@)) == entries_upto(l, k as nat),
            decreases n - k,
        {
            let base = k * 128;
            let ghost e = dir@.subrange(base as int, base + 128);
            let obj = dir[base + 66];
            let name_len = read_u16_le(dir.as_slice(), base + 64);
            let start = read_u32_le(dir.as_slice(), base + 116);
            let size = read_u64_le(dir.as_slice(), base + 120);
            assert(e[66] == obj);
            assert(le16(e, 64) == le16(dir@, base + 64));
            assert(le32(e, 116) == le32(dir@, base + 116));
            assert(le64(e, 120) == le64(dir@, base + 120));
            if obj == 2 && name_len > 2 {
                let name = entry_name_exec(&dir, base);
                let content = if size < 4096 && mini_stream.len() > 0 && mini_fat.len() > 0 {
                    read_chain(mini_stream.as_slice(), &mini_fat, MINI_SECTOR_SIZE, 0, start, size)
                } else {
                    read_chain(data, &fat, ss, 1, start, size)
                };
                entries_insert_exec(&mut streams, name, content);
            }
            k += 1;
        }
        assert(n == l.dir.len() / 128);
        assert(l == layout(data@));
        if n == 0 {
            assert(entries_upto(l, 0) =~= entries_upto(l, 1));
            assert(spec_streams(data@) == entries_upto(l, 0));
        } else {
            assert(k == n);
            assert(spec_streams(data@) == entries_upto(l, n as nat));
            assert(streams@.map_values(|e: (String, Vec<u8>)| (e.0@, e.1@)) == entries_upto(l, n as nat));
        }
        assert(streams@.map_values(|e: (String, Vec<u8>)| (e.0@, e.1@)) == spec_streams(data@));
        let c = CfbContainer { streams };
        assert(c@ == spec_streams(data@));
        assert(header_ok(data@));
        Ok(c)
    }
}

} // verus!

verus! {

/// The content of the stream named `name`, if there is one.
pub open spec fn stream_lookup(es: Seq<(Seq<char>, Seq<u8>)>, name: Seq<char>) -> Option<Seq<u8>> {
    if exists|i: int| first_key_index(es, name, i) {
        Some(es[choose|i: int| first_key_index(es, name, i)].1)
    } else {
        None
    }
}

/// Whether raw stream bytes start with a zlib header (`0x78` followed by
/// `0x9C`, `0x01`, `0xDA` or `0x5E`) and have more than two bytes.
pub open spec fn looks_zlib(raw: Seq<u8>) -> bool {
    raw.len() > 2 && raw[0] == 0x78 && (raw[1] == 0x9C || raw[1] == 0x01 || raw[1] == 0xDA || raw[1]
        == 0x5E)
}

/// The bytes a stream reads as: decompressed when it looks like zlib and
/// decompresses to something non-empty, else the raw bytes.
pub open spec fn stream_bytes(raw: Seq<u8>) -> Seq<u8> {
    if looks_zlib(raw) {
        match spec_zlib_inflate(raw) {
            Some(d) => if d.len() > 0 {
                d
            } else {
                raw
            },
            None => raw,
        }
    } else {
        raw
    }
}

fn copy_bytes(src: &Vec<u8>) -> (r: Vec<u8>)
    ensures
        r@ == src@,
{
    let mut out: Vec<u8> = Vec::new();
    append_range(&mut out, src.as_slice(), 0, src.len());
    assert(src@.subrange(0, src@.len() as int) =~= src@);
    out
}

impl CfbContainer {
    /// Reads the stream `name` (see [`stream_bytes`]); `StreamNotFound`
    /// exactly when the container has no such stream.
    pub fn get_stream(&self, name: &str) -> (r: Result<Vec<u8>, AltiumImportError>)
        ensures
            match r {
                Ok(v) => stream_lookup(self@, name@) matches Some(raw) && v@ == stream_bytes(raw),
                Err(e) => stream_lookup(self@, name@) is None && (e matches AltiumImportError::StreamNotFound(
                    s,
                ) && s@ == name@),
            },
    {
        let ghost es = self@;
        let mut i: usize = 0;
        while i < self.streams.len()
            invariant
                i <= self.streams.len(),
                es == self@,
                forall|j: int| 0 <= j < i ==> es[j].0 != name@,
            decreases self.streams.len() - i,
        {
            if str_eq(self.streams[i].0.as_str(), name) {
                assert(first_key_index(es, name@, i as int));
                let ghost w = choose|w: int| first_key_index(es, name@, w);
                assert(w == i as int) by {
                    if w < i {
                    } else if w > i {
                        assert(es[i as int].0 != name@);
                    }
                }
                let raw = &self.streams[i].1;
                assert(raw@ == es[i as int].1);
                if raw.len() > 2 && raw[0] == 0x78 && (raw[1] == 0x9C || raw[1] == 0x01 || raw[1]
                    == 0xDA || raw[1] == 0x5E) {
                    match zlib_inflate(raw.as_slice()) {
                        Some(d) => {
                            if d.len() > 0 {
                                return Ok(d);
                            }
                        },
                        None => {},
                    }
                }
                return Ok(copy_bytes(raw));
            }
            i += 1;
        }
        assert(!exists|w: int| first_key_index(es, name@, w));
        Err(AltiumImportError::StreamNotFound(to_string(name)))
    }
}

} // verus!

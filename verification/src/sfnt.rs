//! Rewriting an sfnt (TrueType/OpenType) font with some of its tables removed.
use vstd::prelude::*;

verus! {

/// The big-endian 16-bit number at `at`.
pub open spec fn be_u16(d: Seq<u8>, at: int) -> nat {
    (d[at] as nat) * 256 + (d[at + 1] as nat)
}

/// The big-endian 32-bit number at `at`.
pub open spec fn be_u32(d: Seq<u8>, at: int) -> nat {
    (d[at] as nat) * 16777216 + (d[at + 1] as nat) * 65536 + (d[at + 2] as nat) * 256 + (d[at + 3] as nat)
}

/// `v` (below 2^16) as two big-endian bytes.
pub open spec fn u16_be(v: nat) -> Seq<u8> {
    seq![(v / 256) as u8, (v % 256) as u8]
}

/// `v` (below 2^32) as four big-endian bytes.
pub open spec fn u32_be(v: nat) -> Seq<u8> {
    seq![(v / 16777216) as u8, (v / 65536 % 256) as u8, (v / 256 % 256) as u8, (v % 256) as u8]
}

/// Where the table record `i` starts in the table directory.
pub open spec fn record_offset(i: int) -> int {
    12 + 16 * i
}

/// The number of tables the offset table declares.
pub open spec fn table_count(d: Seq<u8>) -> nat {
    be_u16(d, 4)
}

/// The tag of table record `i`.
pub open spec fn table_tag(d: Seq<u8>, i: int) -> Seq<u8> {
    d.subrange(record_offset(i), record_offset(i) + 4)
}

/// Whether `tag` is one of the tags to drop.
pub open spec fn is_dropped(tag: Seq<u8>, drops: Seq<&[u8; 4]>) -> bool {
    exists|j: int| 0 <= j < drops.len() && #[trigger] drops[j]@ == tag
}

/// The (tag, offset, length) of each of the first `n` table records that is
/// not dropped, in directory order.
pub open spec fn kept_tables(d: Seq<u8>, drops: Seq<&[u8; 4]>, n: nat) -> Seq<(Seq<u8>, nat, nat)>
    decreases n,
{
    if n == 0 {
        Seq::empty()
    } else {
        let i = n - 1;
        let prev = kept_tables(d, drops, (n - 1) as nat);
        if is_dropped(table_tag(d, i), drops) {
            prev
        } else {
            prev.push(
                (table_tag(d, i), be_u32(d, record_offset(i) + 8), be_u32(d, record_offset(i) + 12)),
            )
        }
    }
}

/// The tables of `d` that are kept.
pub open spec fn kept_in(d: Seq<u8>, drops: Seq<&[u8; 4]>) -> Seq<(Seq<u8>, nat, nat)> {
    kept_tables(d, drops, table_count(d))
}

/// A table length rounded up to a multiple of four.
pub open spec fn padded(len: nat) -> nat {
    (len + 3) / 4 * 4
}

/// The space the padded tables take together.
pub open spec fn total_padded(tables: Seq<(Seq<u8>, nat, nat)>) -> nat
    decreases tables.len(),
{
    if tables.len() == 0 {
        0
    } else {
        total_padded(tables.drop_last()) + padded(tables.last().2)
    }
}

/// The largest `e` with `2^e <= m` (0 for `m < 2`).
pub open spec fn floor_log2(m: nat) -> nat
    decreases m,
{
    if m < 2 {
        0
    } else {
        1 + floor_log2(m / 2)
    }
}

/// Two to the power `e`.
pub open spec fn pow2(e: nat) -> nat
    decreases e,
{
    if e == 0 {
        1
    } else {
        2 * pow2((e - 1) as nat)
    }
}

/// The offset table of a font with `n` tables: the original version tag,
/// the table count, and the binary-search hints derived from the largest
/// power of two not above the count (counted as at least one), the range
/// shift wrapping modulo 2^16 as the 16-bit subtraction does.
pub open spec fn offset_table(d: Seq<u8>, n: nat) -> Seq<u8> {
    let m: nat = if n == 0 { 1 } else { n };
    let e = floor_log2(m);
    let p = pow2(e);
    d.subrange(0, 4) + u16_be(n) + u16_be(16 * p) + u16_be(e) + u16_be(
        ((16 * n - 16 * p) % 65536) as nat,
    )
}

/// The table records of `tables`, whose data starts at `base` and follows
/// in order, each table padded to four bytes; checksums are zero and offsets
/// are taken modulo 2^32.
pub open spec fn table_records(tables: Seq<(Seq<u8>, nat, nat)>, base: nat) -> Seq<u8>
    decreases tables.len(),
{
    if tables.len() == 0 {
        Seq::empty()
    } else {
        let t = tables.last();
        table_records(tables.drop_last(), base) + t.0 + u32_be(0) + u32_be(
            ((base + total_padded(tables.drop_last())) % 4294967296) as nat,
        ) + u32_be(t.2)
    }
}

/// The data of `tables`, copied from `d`, each followed by the zero bytes
/// that pad it to a multiple of four.
pub open spec fn table_data(d: Seq<u8>, tables: Seq<(Seq<u8>, nat, nat)>) -> Seq<u8>
    decreases tables.len(),
{
    if tables.len() == 0 {
        Seq::empty()
    } else {
        let t = tables.last();
        table_data(d, tables.drop_last()) + d.subrange(t.1 as int, (t.1 + t.2) as int) + Seq::new(
            (padded(t.2) - t.2) as nat,
            |k: int| 0u8,
        )
    }
}

/// The font `d` with the tables tagged by `drops` removed: a new offset
/// table, the records of the kept tables in their order, then their data.
pub open spec fn without_tables(d: Seq<u8>, drops: Seq<&[u8; 4]>) -> Seq<u8> {
    let tables = kept_in(d, drops);
    offset_table(d, tables.len()) + table_records(tables, (12 + 16 * tables.len()) as nat)
        + table_data(d, tables)
}

/// The font can be rewritten: the offset table and every record that is read
/// lie inside `d` (a dropped record's offset and length are never read),
/// every kept table lies inside `d`, fewer than 4096 tables are kept (the
/// 16-bit header arithmetic), and the rewritten font's size fits a `usize`.
pub open spec fn rewritable(d: Seq<u8>, drops: Seq<&[u8; 4]>) -> bool {
    &&& d.len() >= 6
    &&& forall|i: int|
        0 <= i < table_count(d) ==> record_offset(i) + 4 <= d.len() && (!is_dropped(
            #[trigger] table_tag(d, i),
            drops,
        ) ==> record_offset(i) + 16 <= d.len())
    &&& forall|k: int|
        0 <= k < kept_in(d, drops).len() ==> #[trigger] kept_in(d, drops)[k].1 + kept_in(d, drops)[k].2
            <= d.len()
    &&& kept_in(d, drops).len() < 4096
    &&& 12 + 16 * kept_in(d, drops).len() + total_padded(kept_in(d, drops)) <= usize::MAX
}

fn read_u16(buf: &[u8], at: usize) -> (r: u16)
    requires
        at + 2 <= buf@.len(),
    ensures
        r == be_u16(buf@, at as int),
{
    buf[at] as u16 * 256 + buf[at + 1] as u16
}

fn read_u32(buf: &[u8], at: usize) -> (r: usize)
    requires
        at + 4 <= buf@.len(),
    ensures
        r == be_u32(buf@, at as int),
{
    let v: u32 = buf[at] as u32 * 16777216 + buf[at + 1] as u32 * 65536 + buf[at + 2] as u32 * 256
        + buf[at + 3] as u32;
    v as usize
}

fn push_u16(out: &mut Vec<u8>, v: u16)
    ensures
        final(out)@ == old(out)@ + u16_be(v as nat),
{
    out.push((v / 256) as u8);
    out.push((v % 256) as u8);
}

fn push_u32(out: &mut Vec<u8>, v: u32)
    ensures
        final(out)@ == old(out)@ + u32_be(v as nat),
{
    out.push((v / 16777216) as u8);
    out.push((v / 65536 % 256) as u8);
    out.push((v / 256 % 256) as u8);
    out.push((v % 256) as u8);
}

fn tag_is_dropped(drop_tags: &[&[u8; 4]], tag: &[u8; 4]) -> (r: bool)
    ensures
        r == is_dropped(tag@, drop_tags@),
{
    let mut j: usize = 0;
    while j < drop_tags.len()
        invariant
            j <= drop_tags@.len(),
            forall|k: int| 0 <= k < j ==> #[trigger] drop_tags@[k]@ != tag@,
        decreases drop_tags@.len() - j,
    {
        let d: &[u8; 4] = drop_tags[j];
        if d[0] == tag[0] && d[1] == tag[1] && d[2] == tag[2] && d[3] == tag[3] {
            assert(drop_tags@[j as int]@ =~= tag@);
            return true;
        }
        assert(drop_tags@[j as int]@[0] != tag@[0] || drop_tags@[j as int]@[1] != tag@[1]
            || drop_tags@[j as int]@[2] != tag@[2] || drop_tags@[j as int]@[3] != tag@[3]);
        j += 1;
    }
    false
}

/// The tables as the rewriter holds them, read as (tag, offset, length).
pub open spec fn tables_view(v: Seq<([u8; 4], usize, usize)>) -> Seq<(Seq<u8>, nat, nat)> {
    v.map_values(|t: ([u8; 4], usize, usize)| (t.0@, t.1 as nat, t.2 as nat))
}

proof fn lemma_total_padded_prefix(tables: Seq<(Seq<u8>, nat, nat)>, k: int)
    requires
        0 <= k <= tables.len(),
    ensures
        total_padded(tables.take(k)) <= total_padded(tables),
    decreases tables.len(),
{
    if k < tables.len() {
        assert(tables.drop_last().take(k) =~= tables.take(k));
        lemma_total_padded_prefix(tables.drop_last(), k);
    } else {
        assert(tables.take(k) =~= tables);
    }
}

proof fn lemma_pow2_positive(e: nat)
    ensures
        pow2(e) >= 1,
    decreases e,
{
    if e > 0 {
        lemma_pow2_positive((e - 1) as nat);
    }
}

/// `floor_log2` picks the only power of two in `(m / 2, m]`.
proof fn lemma_floor_log2_unique(m: nat, e: nat)
    requires
        pow2(e) <= m < 2 * pow2(e),
    ensures
        floor_log2(m) == e,
    decreases m,
{
    if e == 0 {
        assert(m < 2);
    } else {
        let q = pow2((e - 1) as nat);
        lemma_pow2_positive((e - 1) as nat);
        assert(pow2(e) == 2 * q);
        assert(m >= 2);
        assert(q <= m / 2 < 2 * q);
        lemma_floor_log2_unique(m / 2, (e - 1) as nat);
    }
}

proof fn lemma_u32_be_round_trip(v: nat)
    requires
        v < 4294967296,
    ensures
        u32_be(v).len() == 4,
        be_u32(u32_be(v), 0) == v,
{
    let b = u32_be(v);
    assert(v / 16777216 < 256) by (nonlinear_arith)
        requires
            v < 4294967296,
    ;
    assert(v == (v / 16777216) * 16777216 + (v / 65536 % 256) * 65536 + (v / 256 % 256) * 256 + v % 256)
        by (nonlinear_arith);
    assert(b[0] as nat == v / 16777216);
    assert(b[1] as nat == v / 65536 % 256);
    assert(b[2] as nat == v / 256 % 256);
    assert(b[3] as nat == v % 256);
}


/// Every tag of `tables` is four bytes long.
pub open spec fn four_byte_tags(tables: Seq<(Seq<u8>, nat, nat)>) -> bool {
    forall|k: int| 0 <= k < tables.len() ==> #[trigger] tables[k].0.len() == 4
}

/// Every table of `tables` lies inside `d`.
pub open spec fn tables_inside(d: Seq<u8>, tables: Seq<(Seq<u8>, nat, nat)>) -> bool {
    forall|k: int| 0 <= k < tables.len() ==> #[trigger] tables[k].1 + tables[k].2 <= d.len()
}

proof fn lemma_table_records_len(tables: Seq<(Seq<u8>, nat, nat)>, base: nat)
    requires
        four_byte_tags(tables),
    ensures
        table_records(tables, base).len() == 16 * tables.len(),
    decreases tables.len(),
{
    if tables.len() > 0 {
        let t = tables.drop_last();
        assert forall|k: int| 0 <= k < t.len() implies #[trigger] t[k].0.len() == 4 by {
            assert(t[k] == tables[k]);
        }
        lemma_table_records_len(t, base);
        assert(tables.last().0.len() == 4);
    }
}

proof fn lemma_table_record(tables: Seq<(Seq<u8>, nat, nat)>, base: nat, k: int)
    requires
        four_byte_tags(tables),
        0 <= k < tables.len(),
    ensures
        table_records(tables, base).subrange(16 * k, 16 * k + 16) == tables[k].0 + u32_be(0) + u32_be(
            ((base + total_padded(tables.take(k))) % 4294967296) as nat,
        ) + u32_be(tables[k].2),
    decreases tables.len(),
{
    let t = tables.drop_last();
    assert forall|j: int| 0 <= j < t.len() implies #[trigger] t[j].0.len() == 4 by {
        assert(t[j] == tables[j]);
    }
    lemma_table_records_len(t, base);
    lemma_table_records_len(tables, base);
    let r = table_records(tables, base);
    let p = table_records(t, base);
    if k < tables.len() - 1 {
        lemma_table_record(t, base, k);
        assert(t[k] == tables[k]);
        assert(t.take(k) =~= tables.take(k));
        assert(r.subrange(16 * k, 16 * k + 16) =~= p.subrange(16 * k, 16 * k + 16));
    } else {
        assert(tables.take(k) =~= t);
        assert(tables[k].0.len() == 4);
        assert(r.subrange(16 * k, 16 * k + 16) =~= tables[k].0 + u32_be(0) + u32_be(
            ((base + total_padded(tables.take(k))) % 4294967296) as nat,
        ) + u32_be(tables[k].2));
    }
}

proof fn lemma_table_data_len(d: Seq<u8>, tables: Seq<(Seq<u8>, nat, nat)>)
    requires
        tables_inside(d, tables),
    ensures
        table_data(d, tables).len() == total_padded(tables),
    decreases tables.len(),
{
    if tables.len() > 0 {
        let t = tables.drop_last();
        assert forall|k: int| 0 <= k < t.len() implies #[trigger] t[k].1 + t[k].2 <= d.len() by {
            assert(t[k] == tables[k]);
        }
        lemma_table_data_len(d, t);
        let last = tables.last();
        assert(last.1 + last.2 <= d.len());
        assert(padded(last.2) >= last.2);
    }
}

proof fn lemma_table_data(d: Seq<u8>, tables: Seq<(Seq<u8>, nat, nat)>, k: int)
    requires
        tables_inside(d, tables),
        0 <= k < tables.len(),
    ensures
        table_data(d, tables).subrange(
            total_padded(tables.take(k)) as int,
            (total_padded(tables.take(k)) + tables[k].2) as int,
        ) == d.subrange(tables[k].1 as int, (tables[k].1 + tables[k].2) as int),
    decreases tables.len(),
{
    let t = tables.drop_last();
    assert forall|j: int| 0 <= j < t.len() implies #[trigger] t[j].1 + t[j].2 <= d.len() by {
        assert(t[j] == tables[j]);
    }
    lemma_table_data_len(d, t);
    let r = table_data(d, tables);
    let p = table_data(d, t);
    let lo = total_padded(tables.take(k)) as int;
    if k < tables.len() - 1 {
        lemma_table_data(d, t, k);
        assert(t[k] == tables[k]);
        assert(t.take(k) =~= tables.take(k));
        lemma_total_padded_prefix(t, k + 1);
        let next = t.take(k + 1);
        assert(next.drop_last() =~= t.take(k));
        assert(total_padded(next) == total_padded(t.take(k)) + padded(t[k].2));
        assert(padded(t[k].2) >= t[k].2);
        assert(r.subrange(lo, lo + tables[k].2) =~= p.subrange(lo, lo + tables[k].2));
    } else {
        assert(tables.take(k) =~= t);
        assert(tables[k].1 + tables[k].2 <= d.len());
        assert(r.subrange(lo, lo + tables[k].2) =~= d.subrange(tables[k].1 as int, (tables[k].1 + tables[k].2) as int));
    }
}

proof fn lemma_total_padded_member(tables: Seq<(Seq<u8>, nat, nat)>, j: int)
    requires
        0 <= j < tables.len(),
    ensures
        tables[j].2 <= total_padded(tables),
    decreases tables.len(),
{
    assert(padded(tables.last().2) >= tables.last().2);
    if j < tables.len() - 1 {
        lemma_total_padded_member(tables.drop_last(), j);
    }
}

proof fn lemma_u16_be_round_trip(v: nat)
    requires
        v < 65536,
    ensures
        u16_be(v).len() == 2,
        be_u16(u16_be(v), 0) == v,
{
    assert(v / 256 < 256);
}

proof fn lemma_total_padded_aligned(tables: Seq<(Seq<u8>, nat, nat)>)
    ensures
        total_padded(tables) % 4 == 0,
    decreases tables.len(),
{
    if tables.len() > 0 {
        lemma_total_padded_aligned(tables.drop_last());
        let x = (tables.last().2 + 3) / 4;
        assert((total_padded(tables.drop_last()) + x * 4) % 4 == 0) by (nonlinear_arith)
            requires
                total_padded(tables.drop_last()) % 4 == 0,
        ;
    }
}

proof fn lemma_kept_tags(d: Seq<u8>, drops: Seq<&[u8; 4]>, n: nat)
    requires
        rewritable(d, drops),
        n <= table_count(d),
    ensures
        four_byte_tags(kept_tables(d, drops, n)),
        forall|k: int|
            0 <= k < kept_tables(d, drops, n).len() ==> !is_dropped(
                #[trigger] kept_tables(d, drops, n)[k].0,
                drops,
            ),
    decreases n,
{
    if n > 0 {
        let i = n - 1;
        lemma_kept_tags(d, drops, (n - 1) as nat);
        assert(record_offset(i) + 4 <= d.len());
        assert(table_tag(d, i).len() == 4);
    }
}

/// The bytes of `a + b + c` in `[lo, hi)`, a window inside `b`.
proof fn lemma_middle_window(a: Seq<u8>, b: Seq<u8>, c: Seq<u8>, lo: int, hi: int)
    requires
        a.len() <= lo <= hi <= a.len() + b.len(),
    ensures
        (a + b + c).subrange(lo, hi) == b.subrange(lo - a.len(), hi - a.len()),
{
    assert((a + b + c).subrange(lo, hi) =~= b.subrange(lo - a.len(), hi - a.len()));
}

/// The bytes of `a + b + c` in `[lo, hi)`, a window inside `c`.
proof fn lemma_last_window(a: Seq<u8>, b: Seq<u8>, c: Seq<u8>, lo: int, hi: int)
    requires
        a.len() + b.len() <= lo <= hi <= a.len() + b.len() + c.len(),
    ensures
        (a + b + c).subrange(lo, hi) == c.subrange(lo - a.len() - b.len(), hi - a.len() - b.len()),
{
    assert((a + b + c).subrange(lo, hi) =~= c.subrange(lo - a.len() - b.len(), hi - a.len() - b.len()));
}

/// Four bytes that spell `v` read back as `v`.
proof fn lemma_read_back_u32(s: Seq<u8>, at: int, v: nat)
    requires
        0 <= at,
        at + 4 <= s.len(),
        v < 4294967296,
        s.subrange(at, at + 4) == u32_be(v),
    ensures
        be_u32(s, at) == v,
{
    lemma_u32_be_round_trip(v);
    let w = s.subrange(at, at + 4);
    assert(s[at] == w[0] && s[at + 1] == w[1] && s[at + 2] == w[2] && s[at + 3] == w[3]);
}

/// The rewritten font keeps the version tag and declares as many tables as
/// were kept.
pub proof fn lemma_rewritten_header(d: Seq<u8>, drops: Seq<&[u8; 4]>)
    requires
        rewritable(d, drops),
    ensures
        without_tables(d, drops).subrange(0, 4) == d.subrange(0, 4),
        table_count(without_tables(d, drops)) == kept_in(d, drops).len(),
{
    let tables = kept_in(d, drops);
    let n = tables.len();
    let out = without_tables(d, drops);
    let hdr = offset_table(d, n);
    lemma_u16_be_round_trip(n);
    assert(hdr.len() == 12);
    assert(out.subrange(0, 4) =~= d.subrange(0, 4));
    assert(out[4] == hdr[4] && out[5] == hdr[5]);
    assert(hdr[4] == u16_be(n)[0] && hdr[5] == u16_be(n)[1]);
}

/// Record `k` of a font laid out as `hdr`, the records of `tables` whose
/// data starts at `base`, then `data`, carries the `k`-th table's tag and
/// length and the offset at which its data was placed.
#[verifier::rlimit(60)]
proof fn lemma_record_fields(
    hdr: Seq<u8>,
    tables: Seq<(Seq<u8>, nat, nat)>,
    base: nat,
    data: Seq<u8>,
    k: int,
)
    requires
        hdr.len() == 12,
        four_byte_tags(tables),
        base + total_padded(tables) < 4294967296,
        forall|j: int| 0 <= j < tables.len() ==> #[trigger] tables[j].2 < 4294967296,
        0 <= k < tables.len(),
    ensures
        ({
            let out = hdr + table_records(tables, base) + data;
            let at = record_offset(k);
            &&& out.subrange(at, at + 4) == tables[k].0
            &&& be_u32(out, at + 8) == base + total_padded(tables.take(k))
            &&& be_u32(out, at + 12) == tables[k].2
        }),
{
    let rec = table_records(tables, base);
    let out = hdr + rec + data;
    let t = tables[k];
    let at = record_offset(k);
    lemma_table_records_len(tables, base);
    lemma_table_record(tables, base, k);
    lemma_total_padded_prefix(tables, k);
    let off = base + total_padded(tables.take(k));
    assert(off % 4294967296 == off);
    assert(t.2 < 4294967296);
    lemma_middle_window(hdr, rec, data, at, at + 16);
    let r = rec.subrange(16 * k, 16 * k + 16);
    assert(r.subrange(0, 4) =~= t.0);
    assert(out.subrange(at, at + 4) =~= r.subrange(0, 4));
    assert(r.subrange(8, 12) =~= u32_be(off));
    assert(out.subrange(at + 8, at + 12) =~= r.subrange(8, 12));
    lemma_read_back_u32(out, at + 8, off);
    assert(r.subrange(12, 16) =~= u32_be(t.2));
    assert(out.subrange(at + 12, at + 16) =~= r.subrange(12, 16));
    lemma_read_back_u32(out, at + 12, t.2);
}

/// Table `k`'s bytes in a font laid out as `hdr`, the records of `tables`,
/// then their data copied from `d`.
proof fn lemma_table_bytes(
    d: Seq<u8>,
    hdr: Seq<u8>,
    tables: Seq<(Seq<u8>, nat, nat)>,
    base: nat,
    k: int,
)
    requires
        hdr.len() == 12,
        base == 12 + 16 * tables.len(),
        four_byte_tags(tables),
        tables_inside(d, tables),
        0 <= k < tables.len(),
    ensures
        ({
            let out = hdr + table_records(tables, base) + table_data(d, tables);
            let off = base + total_padded(tables.take(k));
            &&& off % 4 == 0
            &&& out.subrange(off as int, (off + tables[k].2) as int) == d.subrange(
                tables[k].1 as int,
                (tables[k].1 + tables[k].2) as int,
            )
        }),
{
    let rec = table_records(tables, base);
    let data = table_data(d, tables);
    let t = tables[k];
    lemma_table_records_len(tables, base);
    lemma_table_data_len(d, tables);
    lemma_table_data(d, tables, k);
    lemma_total_padded_prefix(tables, k + 1);
    lemma_total_padded_aligned(tables.take(k));
    assert(tables.take(k + 1).drop_last() =~= tables.take(k));
    let before = total_padded(tables.take(k));
    assert(before + t.2 <= total_padded(tables)) by {
        assert(padded(t.2) >= t.2);
    }
    let off = base + before;
    assert(off % 4 == 0) by {
        assert((12 + 16 * tables.len()) % 4 == 0);
    }
    lemma_last_window(hdr, rec, data, off as int, (off + t.2) as int);
}

/// Every kept table survives the rewrite: record `k` of the rewritten font
/// carries the `k`-th kept table's tag (none of the dropped ones) and length,
/// and an offset, a multiple of four, at which the table's original bytes
/// stand. Offsets are 32-bit, so this holds of rewritten fonts that fit in
/// 4 GiB.
pub proof fn lemma_kept_table_survives(d: Seq<u8>, drops: Seq<&[u8; 4]>, k: int)
    requires
        rewritable(d, drops),
        12 + 16 * kept_in(d, drops).len() + total_padded(kept_in(d, drops)) < 4294967296,
        0 <= k < kept_in(d, drops).len(),
    ensures
        ({
            let out = without_tables(d, drops);
            let t = kept_in(d, drops)[k];
            let at = record_offset(k);
            let offset = be_u32(out, at + 8);
            &&& out.subrange(at, at + 4) == t.0
            &&& !is_dropped(t.0, drops)
            &&& be_u32(out, at + 12) == t.2
            &&& offset % 4 == 0
            &&& out.subrange(offset as int, (offset + t.2) as int) == d.subrange(t.1 as int, (t.1 + t.2) as int)
        }),
{
    let tables = kept_in(d, drops);
    let n = tables.len();
    let base = (12 + 16 * n) as nat;
    let hdr = offset_table(d, n);
    lemma_kept_tags(d, drops, table_count(d));
    lemma_u16_be_round_trip(n);
    assert(hdr.len() == 12);
    assert(tables_inside(d, tables));
    assert forall|j: int| 0 <= j < tables.len() implies #[trigger] tables[j].2 < 4294967296 by {
        lemma_total_padded_member(tables, j);
    }
    lemma_record_fields(hdr, tables, base, table_data(d, tables), k);
    lemma_table_bytes(d, hdr, tables, base, k);
}

/// The crate's power of two is the arithmetic library's.
proof fn lemma_pow2_agrees(e: nat)
    ensures
        pow2(e) == vstd::arithmetic::power2::pow2(e),
    decreases e,
{
    if e == 0 {
        vstd::arithmetic::power2::lemma2_to64();
    } else {
        lemma_pow2_agrees((e - 1) as nat);
        vstd::arithmetic::power2::lemma_pow2_unfold(e);
    }
}

/// `floor_log2(m)` names the largest power of two not above `m`.
proof fn lemma_floor_log2_bounds(m: nat)
    requires
        m >= 1,
    ensures
        pow2(floor_log2(m)) <= m < 2 * pow2(floor_log2(m)),
        floor_log2(m) < m,
    decreases m,
{
    if m >= 2 {
        lemma_floor_log2_bounds(m / 2);
    }
}

/// The binary-search hints of the rewritten font's offset table: with `n`
/// tables kept (counted as at least one), `searchRange` is 16 times the
/// largest power of two not above that count, `entrySelector` is the
/// exponent of that power, and `rangeShift` is `16 * n - searchRange`
/// taken as a 16-bit value.
pub proof fn lemma_rewritten_search_hints(d: Seq<u8>, drops: Seq<&[u8; 4]>)
    requires
        rewritable(d, drops),
    ensures
        ({
            let out = without_tables(d, drops);
            let n = kept_in(d, drops).len();
            let m: nat = if n == 0 { 1 } else { n };
            let search_range = be_u16(out, 6);
            let entry_selector = be_u16(out, 8);
            let range_shift = be_u16(out, 10);
            &&& search_range == 16 * vstd::arithmetic::power2::pow2(entry_selector)
            &&& vstd::arithmetic::power2::pow2(entry_selector) <= m
            &&& m < 2 * vstd::arithmetic::power2::pow2(entry_selector)
            &&& range_shift == (16 * n - search_range) % 65536
        }),
{
    let n = kept_in(d, drops).len();
    let m: nat = if n == 0 { 1 } else { n };
    let e = floor_log2(m);
    let p = pow2(e);
    lemma_floor_log2_bounds(m);
    lemma_pow2_agrees(e);
    let rs = ((16 * n - 16 * p) % 65536) as nat;
    lemma_u16_be_round_trip(16 * p);
    lemma_u16_be_round_trip(e);
    lemma_u16_be_round_trip(rs);
    let hdr = offset_table(d, n);
    let out = without_tables(d, drops);
    assert(hdr.len() == 12);
    assert(out[6] == hdr[6] && out[7] == hdr[7] && out[8] == hdr[8] && out[9] == hdr[9]);
    assert(out[10] == hdr[10] && out[11] == hdr[11]);
    assert(hdr[6] == u16_be(16 * p)[0] && hdr[7] == u16_be(16 * p)[1]);
    assert(hdr[8] == u16_be(e)[0] && hdr[9] == u16_be(e)[1]);
    assert(hdr[10] == u16_be(rs)[0] && hdr[11] == u16_be(rs)[1]);
}

/// Reads the records of the tables that are kept, in directory order.
fn collect_kept_tables(data: &[u8], drop_tags: &[&[u8; 4]]) -> (kept: Vec<([u8; 4], usize, usize)>)
    requires
        rewritable(data@, drop_tags@),
    ensures
        tables_view(kept@) == kept_in(data@, drop_tags@),
        forall|k: int| 0 <= k < kept@.len() ==> #[trigger] kept@[k].2 <= u32::MAX,
{
    let ghost d = data@;
    let ghost drops = drop_tags@;
    let num_tables = read_u16(data, 4) as usize;
    let mut kept: Vec<([u8; 4], usize, usize)> = Vec::new();
    let mut i: usize = 0;
    while i < num_tables
        invariant
            i <= num_tables == table_count(d),
            d == data@,
            drops == drop_tags@,
            rewritable(d, drops),
            tables_view(kept@) == kept_tables(d, drops, i as nat),
            forall|k: int| 0 <= k < kept@.len() ==> #[trigger] kept@[k].2 <= u32::MAX,
        decreases num_tables - i,
    {
        let rec = 12 + i * 16;
        assert(record_offset(i as int) + 4 <= d.len());
        let tag = [data[rec], data[rec + 1], data[rec + 2], data[rec + 3]];
        assert(tag@ =~= table_tag(d, i as int));
        if tag_is_dropped(drop_tags, &tag) {
            i += 1;
            continue;
        }
        let offset = read_u32(data, rec + 8);
        let length = read_u32(data, rec + 12);
        kept.push((tag, offset, length));
        assert(tables_view(kept@) =~= kept_tables(d, drops, (i + 1) as nat));
        i += 1;
    }
    kept
}

/// Writes the offset table of a font with `new_num` tables.
fn push_offset_table(out: &mut Vec<u8>, data: &[u8], new_num: usize)
    requires
        old(out)@.len() == 0,
        data@.len() >= 4,
        new_num < 4096,
    ensures
        final(out)@ == offset_table(data@, new_num as nat),
{
    out.push(data[0]);
    out.push(data[1]);
    out.push(data[2]);
    out.push(data[3]);
    assert(out@ =~= data@.subrange(0, 4));
    push_u16(out, new_num as u16);
    let m: u16 = if new_num == 0 { 1 } else { new_num as u16 };
    let mut max_pow2: u16 = 1;
    let mut selector: u16 = 0;
    while max_pow2 <= m / 2
        invariant
            1 <= m < 4096,
            1 <= max_pow2 <= m,
            max_pow2 == pow2(selector as nat),
            selector < max_pow2,
        decreases m - max_pow2,
    {
        max_pow2 = max_pow2 * 2;
        selector = selector + 1;
    }
    proof {
        lemma_floor_log2_unique(m as nat, selector as nat);
    }
    push_u16(out, max_pow2 * 16);
    push_u16(out, selector);
    let count16: u16 = new_num as u16 * 16;
    let range_shift: u16 = if count16 >= max_pow2 * 16 {
        count16 - max_pow2 * 16
    } else {
        (65536 - (max_pow2 * 16 - count16) as u32) as u16
    };
    push_u16(out, range_shift);
    assert(out@ =~= offset_table(data@, new_num as nat));
}

/// Appends the record of one table, whose data lands at `data_offset`, and
/// its padded data.
fn push_table(
    records: &mut Vec<u8>,
    blobs: &mut Vec<u8>,
    data: &[u8],
    tag: [u8; 4],
    offset: usize,
    length: usize,
    data_offset: usize,
)
    requires
        offset + length <= data@.len(),
        length <= u32::MAX,
        length + 3 <= usize::MAX,
    ensures
        final(records)@ == old(records)@ + tag@ + u32_be(0) + u32_be(
            (data_offset as int % 4294967296) as nat,
        ) + u32_be(length as nat),
        final(blobs)@ == old(blobs)@ + data@.subrange(offset as int, (offset + length) as int)
            + Seq::new((padded(length as nat) - length) as nat, |q: int| 0u8),
{
    let ghost records_before = records@;
    records.push(tag[0]);
    records.push(tag[1]);
    records.push(tag[2]);
    records.push(tag[3]);
    assert(records@ =~= records_before + tag@);
    push_u32(records, 0);
    push_u32(records, (data_offset as u64 % 4294967296) as u32);
    push_u32(records, length as u32);

    let padded_len = (length + 3) / 4 * 4;
    let ghost blobs_before = blobs@;
    let available = data.len();
    let end = offset + length;
    let mut b = offset;
    while b < end
        invariant
            offset <= b <= end == offset + length <= data@.len() == available,
            blobs@ == blobs_before + data@.subrange(offset as int, b as int),
        decreases end - b,
    {
        blobs.push(data[b]);
        assert(blobs@ =~= blobs_before + data@.subrange(offset as int, b + 1));
        b += 1;
    }
    let mut z = length;
    while z < padded_len
        invariant
            length <= z <= padded_len,
            padded_len == padded(length as nat),
            blobs@ == blobs_before + data@.subrange(offset as int, (offset + length) as int) + Seq::new(
                (z - length) as nat,
                |q: int| 0u8,
            ),
        decreases padded_len - z,
    {
        blobs.push(0);
        z += 1;
        assert(blobs@ =~= blobs_before + data@.subrange(offset as int, (offset + length) as int)
            + Seq::new((z - length) as nat, |q: int| 0u8));
    }
}

/// Rebuilds an sfnt/TrueType font byte buffer with the named 4-byte tables
/// removed: the kept tables keep their order, their data is copied and
/// padded to four bytes, and the offset table and records are written anew.
pub fn font_without_tables(data: &[u8], drop_tags: &[&[u8; 4]]) -> (out: Vec<u8>)
    requires
        rewritable(data@, drop_tags@),
    ensures
        out@ == without_tables(data@, drop_tags@),
        be_u16(out@, 6) == 16 * vstd::arithmetic::power2::pow2(be_u16(out@, 8)),
        vstd::arithmetic::power2::pow2(be_u16(out@, 8)) <= if kept_in(data@, drop_tags@).len() == 0 {
            1
        } else {
            kept_in(data@, drop_tags@).len()
        },
        (if kept_in(data@, drop_tags@).len() == 0 {
            1
        } else {
            kept_in(data@, drop_tags@).len()
        }) < 2 * vstd::arithmetic::power2::pow2(be_u16(out@, 8)),
        be_u16(out@, 10) == (16 * kept_in(data@, drop_tags@).len() - be_u16(out@, 6)) % 65536,
{
    proof {
        lemma_rewritten_search_hints(data@, drop_tags@);
    }
    let ghost d = data@;
    let ghost drops = drop_tags@;
    let kept = collect_kept_tables(data, drop_tags);
    let ghost tables = tables_view(kept@);
    let new_num = kept.len();
    let mut out: Vec<u8> = Vec::new();
    push_offset_table(&mut out, data, new_num);

    let base: usize = 12 + new_num * 16;
    let mut data_offset: usize = base;
    let mut records: Vec<u8> = Vec::new();
    let mut blobs: Vec<u8> = Vec::new();
    let mut k: usize = 0;
    while k < new_num
        invariant
            k <= new_num == kept@.len() == tables.len(),
            tables == tables_view(kept@),
            tables == kept_in(d, drops),
            d == data@,
            rewritable(d, drops),
            base == 12 + 16 * new_num,
            forall|j: int| 0 <= j < kept@.len() ==> #[trigger] kept@[j].2 <= u32::MAX,
            data_offset == base + total_padded(tables.take(k as int)),
            records@ == table_records(tables.take(k as int), base as nat),
            blobs@ == table_data(d, tables.take(k as int)),
        decreases new_num - k,
    {
        let (tag, offset, length) = kept[k];
        let ghost t = tables[k as int];
        assert(t == (tag@, offset as nat, length as nat));
        assert(kept_in(d, drops)[k as int].1 + kept_in(d, drops)[k as int].2 <= d.len());
        let ghost next = tables.take(k + 1);
        assert(next.drop_last() =~= tables.take(k as int));
        assert(next.last() == t);
        proof {
            lemma_total_padded_prefix(tables, k + 1);
        }
        push_table(&mut records, &mut blobs, data, tag, offset, length, data_offset);
        assert(records@ =~= table_records(next, base as nat));
        assert(blobs@ =~= table_data(d, next));
        data_offset = data_offset + (length + 3) / 4 * 4;
        k += 1;
    }
    assert(tables.take(new_num as int) =~= tables);
    out.append(&mut records);
    out.append(&mut blobs);
    out
}

} // verus!
//! Offline lookup of the region of an IP address in an `xdb` file.
//!
//! The file has a header of 256 bytes, an index of 65536 pairs of pointers that is
//! addressed by the first two bytes of the address, index entries that are sorted by
//! address, and texts of the form `country|province|city|isp|code`. Numbers are stored
//! with the low byte first; IPv6 addresses with the high byte first.

use vstd::prelude::*;

use crate::outside::utf8_text;
use crate::text::{
    chars_of, dec_chars, decimal, law_split_of_two, law_split_without_separator, push_all, same_text,
    split, split_on, string_of, texts, trim, trimmed,
};

verus! {

/// Length of the header.
pub const HEADER_LEN: usize = 256;
/// Length of the header and of the first index.
pub const MIN_LEN: usize = 524_544;

/// What is known of an address; unknown parts are empty.
pub struct Region {
    pub country: String,
    pub province: String,
    pub city: String,
    pub isp: String,
    /// ISO code of the country.
    pub country_code: String,
}

/// A region as a value.
pub struct RegionView {
    pub country: Seq<char>,
    pub province: Seq<char>,
    pub city: Seq<char>,
    pub isp: Seq<char>,
    pub country_code: Seq<char>,
}

impl Region {
    pub open spec fn view(&self) -> RegionView {
        RegionView {
            country: self.country@,
            province: self.province@,
            city: self.city@,
            isp: self.isp@,
            country_code: self.country_code@,
        }
    }
}

/// A loaded file, for addresses of one kind.
pub struct GeoDb {
    pub buf: Vec<u8>,
    pub ipv6: bool,
}

/// Where an address lies relative to an index entry.
#[derive(Clone, Copy, PartialEq, Eq, Structural)]
pub enum Place {
    Below,
    Inside,
    Above,
}

/// Two bytes, low byte first.
pub open spec fn le16(b: Seq<u8>, o: int) -> int {
    b[o] + b[o + 1] * 0x100
}

/// Four bytes, low byte first.
pub open spec fn le32(b: Seq<u8>, o: int) -> int {
    b[o] + b[o + 1] * 0x100 + b[o + 2] * 0x1_0000 + b[o + 3] * 0x100_0000
}

/// Four bytes, high byte first.
pub open spec fn be32(b: Seq<u8>, o: int) -> int {
    b[o] * 0x100_0000 + b[o + 1] * 0x1_0000 + b[o + 2] * 0x100 + b[o + 3]
}

/// Sixteen bytes, high byte first.
pub open spec fn be128(b: Seq<u8>, o: int) -> int {
    be32(b, o) * 0x1_0000_0000_0000_0000_0000_0000 + be32(b, o + 4) * 0x1_0000_0000_0000_0000 + be32(
        b,
        o + 8,
    ) * 0x1_0000_0000 + be32(b, o + 12)
}

fn u16_le(buf: &Vec<u8>, off: usize) -> (r: u16)
    requires
        off + 2 <= buf.len(),
    ensures
        r == le16(buf@, off as int),
{
    buf[off] as u16 + buf[off + 1] as u16 * 0x100
}

fn u32_le(buf: &Vec<u8>, off: usize) -> (r: u32)
    requires
        off + 4 <= buf.len(),
    ensures
        r == le32(buf@, off as int),
{
    buf[off] as u32 + buf[off + 1] as u32 * 0x100 + buf[off + 2] as u32 * 0x1_0000 + buf[off + 3] as u32
        * 0x100_0000
}

fn u32_be(buf: &Vec<u8>, off: usize) -> (r: u32)
    requires
        off + 4 <= buf.len(),
    ensures
        r == be32(buf@, off as int),
{
    buf[off] as u32 * 0x100_0000 + buf[off + 1] as u32 * 0x1_0000 + buf[off + 2] as u32 * 0x100 + buf[off
        + 3] as u32
}

fn u128_be(buf: &Vec<u8>, off: usize) -> (r: u128)
    requires
        off + 16 <= buf.len(),
    ensures
        r == be128(buf@, off as int),
{
    let a: u32 = u32_be(buf, off);
    let b: u32 = u32_be(buf, off + 4);
    let c: u32 = u32_be(buf, off + 8);
    let d: u32 = u32_be(buf, off + 12);
    a as u128 * 0x1_0000_0000_0000_0000_0000_0000 + b as u128 * 0x1_0000_0000_0000_0000 + c as u128
        * 0x1_0000_0000 + d as u128
}

/// Part `i` of a region text without outer white space; a missing part and `0` are empty.
pub open spec fn region_field(text: Seq<char>, i: int) -> Seq<char> {
    let parts = split_on(text, '|');
    let v = if i < parts.len() { trimmed(parts[i]) } else { Seq::empty() };
    if v == "0"@ { Seq::empty() } else { v }
}

/// The region that a text describes.
pub open spec fn region_of(text: Seq<char>) -> RegionView {
    RegionView {
        country: region_field(text, 0),
        province: region_field(text, 1),
        city: region_field(text, 2),
        isp: region_field(text, 3),
        country_code: region_field(text, 4),
    }
}

fn field(parts: &Vec<Vec<char>>, i: usize) -> (r: String)
    ensures
        r@ == ({
            let v = if i < parts@.len() { trimmed(parts@[i as int]@) } else { Seq::empty() };
            if v == "0"@ { Seq::empty() } else { v }
        }),
{
    if i >= parts.len() {
        proof {
            reveal_strlit("0");
            assert(Seq::<char>::empty().len() != "0"@.len());
        }
        return String::new();
    }
    let v = trim(&parts[i]);
    if same_text(&v, "0") {
        String::new()
    } else {
        string_of(&v)
    }
}

/// Reads a region text.
pub fn parse_region(text: &str) -> (r: Region)
    ensures
        r.view() == region_of(text@),
{
    let v = chars_of(text);
    let parts = split(&v, '|');
    let ghost all = split_on(text@, '|');
    proof {
        assert(all.len() == parts@.len());
        assert forall|i: int| 0 <= i < all.len() implies all[i] == #[trigger] parts@[i]@ by {
            assert(texts(parts@)[i] == parts@[i]@);
        }
    }
    Region {
        country: field(&parts, 0),
        province: field(&parts, 1),
        city: field(&parts, 2),
        isp: field(&parts, 3),
        country_code: field(&parts, 4),
    }
}

impl GeoDb {
    /// The file is long enough for its header and its first index.
    pub open spec fn wf(&self) -> bool {
        self.buf@.len() >= MIN_LEN
    }

    /// Length of an address.
    pub open spec fn ip_len(&self) -> int {
        if self.ipv6 { 16 } else { 4 }
    }

    /// Length of an index entry.
    pub open spec fn seg_size(&self) -> int {
        2 * self.ip_len() + 6
    }

    /// The number of an address.
    pub open spec fn ip_number(&self, ip: Seq<u8>) -> int {
        if self.ipv6 { be128(ip, 0) } else { be32(ip, 0) }
    }

    /// The first address of the entry at `off`.
    pub open spec fn first_ip(&self, off: int) -> int {
        if self.ipv6 { be128(self.buf@, off) } else { le32(self.buf@, off) }
    }

    /// The last address of the entry at `off`.
    pub open spec fn last_ip(&self, off: int) -> int {
        if self.ipv6 { be128(self.buf@, off + 16) } else { le32(self.buf@, off + 4) }
    }

    /// Where an address lies relative to the entry at `off`.
    pub open spec fn place(&self, ip: Seq<u8>, off: int) -> Place {
        if self.ip_number(ip) < self.first_ip(off) {
            Place::Below
        } else if self.ip_number(ip) > self.last_ip(off) {
            Place::Above
        } else {
            Place::Inside
        }
    }

    /// Offset of the pair of pointers for an address.
    pub open spec fn slot(ip: Seq<u8>) -> int {
        HEADER_LEN + (ip[0] * 256 + ip[1]) * 8
    }

    /// The entries for an address: offset of the first, and how many.
    pub open spec fn entries(&self, ip: Seq<u8>) -> (int, int) {
        let s = le32(self.buf@, Self::slot(ip));
        let e = le32(self.buf@, Self::slot(ip) + 4);
        if s == 0 || e <= s || e > self.buf@.len() {
            (s, 0)
        } else {
            (s, (e - s) / self.seg_size())
        }
    }

    /// Offset of the entry that halving finds among entries `lo` to `hi`.
    pub open spec fn probe(&self, ip: Seq<u8>, start: int, lo: int, hi: int) -> Option<int>
        decreases hi - lo,
    {
        if lo >= hi {
            None
        } else {
            let mid = (lo + hi) / 2;
            let off = start + mid * self.seg_size();
            match self.place(ip, off) {
                Place::Below => self.probe(ip, start, lo, mid),
                Place::Above => self.probe(ip, start, mid + 1, hi),
                Place::Inside => Some(off),
            }
        }
    }

    /// The region that the entry at `off` points to; none if the text is not there or
    /// not valid UTF-8.
    pub open spec fn region_at(&self, off: int) -> Option<RegionView> {
        let len = le16(self.buf@, off + 2 * self.ip_len());
        let ptr = le32(self.buf@, off + 2 * self.ip_len() + 2);
        if ptr + len > self.buf@.len() {
            None
        } else {
            let bytes = self.buf@.subrange(ptr, ptr + len);
            if vstd::utf8::valid_utf8(bytes) {
                Some(region_of(vstd::utf8::decode_utf8(bytes)))
            } else {
                None
            }
        }
    }

    /// The region of an address.
    pub open spec fn found(&self, ip: Seq<u8>) -> Option<RegionView> {
        let es = self.entries(ip);
        match self.probe(ip, es.0, 0, es.1) {
            Some(off) => self.region_at(off),
            None => None,
        }
    }

    /// What comes of the content of a file.
    pub open spec fn opens(buf: Vec<u8>, r: Result<GeoDb, String>) -> bool {
        if buf@.len() < MIN_LEN {
            r is Err && r->Err_0@ == "xdb 文件过小，缺少头部或向量索引"@
        } else {
            let version = le16(buf@, 0);
            if version == 2 || version == 3 {
                &&& r is Ok
                &&& r->Ok_0.wf()
                &&& r->Ok_0.buf == buf
                &&& r->Ok_0.ipv6 == (version == 3 && le16(buf@, 16) == 6)
            } else {
                r is Err && r->Err_0@ == "未知 xdb 结构版本: "@ + decimal(version as nat)
            }
        }
    }

    /// Opens the content of a file. It must hold header and index, and its version must
    /// be known; only version 3 tells the kind of addresses.
    pub fn from_bytes(buf: Vec<u8>) -> (r: Result<GeoDb, String>)
        ensures
            Self::opens(buf, r),
    {
        if buf.len() < MIN_LEN {
            return Err("xdb 文件过小，缺少头部或向量索引".to_owned());
        }
        let version: u16 = u16_le(&buf, 0);
        if version == 2 {
            Ok(GeoDb { buf, ipv6: false })
        } else if version == 3 {
            let ipv6: bool = u16_le(&buf, 16) == 6;
            Ok(GeoDb { buf, ipv6 })
        } else {
            let mut m = chars_of("未知 xdb 结构版本: ");
            let n = dec_chars(version as u64);
            push_all(&mut m, &n);
            Err(string_of(&m))
        }
    }

    /// Whether the file is for IPv6 addresses.
    pub fn is_ipv6(&self) -> (r: bool)
        ensures
            r == self.ipv6,
    {
        self.ipv6
    }

    fn locate(&self, ip: &Vec<u8>, off: usize) -> (r: Place)
        requires
            ip@.len() == self.ip_len(),
            off + self.seg_size() <= self.buf.len(),
        ensures
            r == self.place(ip@, off as int),
    {
        if self.ipv6 {
            let n: u128 = u128_be(ip, 0);
            if n < u128_be(&self.buf, off) {
                Place::Below
            } else if n > u128_be(&self.buf, off + 16) {
                Place::Above
            } else {
                Place::Inside
            }
        } else {
            let n: u32 = u32_be(ip, 0);
            if n < u32_le(&self.buf, off) {
                Place::Below
            } else if n > u32_le(&self.buf, off + 4) {
                Place::Above
            } else {
                Place::Inside
            }
        }
    }

    fn read_region(&self, off: usize) -> (r: Option<Region>)
        requires
            off + self.seg_size() <= self.buf.len(),
        ensures
            match r {
                Some(g) => self.region_at(off as int) == Some(g.view()),
                None => self.region_at(off as int) is None,
            },
    {
        let total: usize = self.buf.len();
        let ips: usize = if self.ipv6 { 32 } else { 8 };
        let len: usize = u16_le(&self.buf, off + ips) as usize;
        let ptr: usize = u32_le(&self.buf, off + ips + 2) as usize;
        if ptr > total || len > total - ptr {
            return None;
        }
        let mut bytes: Vec<u8> = Vec::new();
        let mut i: usize = ptr;
        let ghost wanted = self.buf@.subrange(ptr as int, ptr + len);
        while i < ptr + len
            invariant
                ptr <= i <= ptr + len,
                ptr + len <= self.buf@.len(),
                total == self.buf@.len(),
                bytes@ == self.buf@.subrange(ptr as int, i as int),
            decreases ptr + len - i,
        {
            bytes.push(self.buf[i]);
            assert(self.buf@.subrange(ptr as int, i + 1) =~= self.buf@.subrange(ptr as int, i as int).push(
                self.buf@[i as int],
            ));
            i = i + 1;
        }
        assert(bytes@ =~= wanted);
        match utf8_text(&bytes) {
            Some(text) => Some(parse_region(text.as_str())),
            None => None,
        }
    }

    /// Looks the region of an address up; the address has as many bytes as the file's kind.
    pub fn search_bytes(&self, ip: &Vec<u8>) -> (r: Option<Region>)
        requires
            self.wf(),
            ip@.len() == self.ip_len(),
        ensures
            match r {
                Some(g) => self.found(ip@) == Some(g.view()),
                None => self.found(ip@) is None,
            },
    {
        let at: usize = HEADER_LEN + (ip[0] as usize * 256 + ip[1] as usize) * 8;
        let s: usize = u32_le(&self.buf, at) as usize;
        let e: usize = u32_le(&self.buf, at + 4) as usize;
        if s == 0 || e <= s || e > self.buf.len() {
            return None;
        }
        let size: usize = if self.ipv6 { 38 } else { 14 };
        let count: usize = (e - s) / size;
        let mut lo: usize = 0;
        let mut hi: usize = count;
        assert(s + count * size <= self.buf@.len()) by (nonlinear_arith)
            requires
                count == (e - s) as usize / size,
                size > 0,
                s < e <= self.buf@.len(),
        ;
        while lo < hi
            invariant
                self.wf(),
                ip@.len() == self.ip_len(),
                size == self.seg_size(),
                lo <= hi <= count,
                s + count * size <= self.buf@.len(),
                e <= self.buf@.len(),
                s < e,
                self.entries(ip@) == (s as int, count as int),
                self.probe(ip@, s as int, 0, count as int) == self.probe(
                    ip@,
                    s as int,
                    lo as int,
                    hi as int,
                ),
            decreases hi - lo,
        {
            let mid: usize = lo + (hi - lo) / 2;
            assert(mid == (lo + hi) / 2);
            assert(mid * size + size <= count * size && 0 <= mid * size) by (nonlinear_arith)
                requires
                    mid < count,
                    size > 0,
            ;
            let total: usize = self.buf.len();
            let off: usize = s + mid * size;
            match self.locate(ip, off) {
                Place::Below => {
                    hi = mid;
                },
                Place::Above => {
                    lo = mid + 1;
                },
                Place::Inside => {
                    return self.read_region(off);
                },
            }
        }
        None
    }

    /// The entries from `start` on are sorted: none ends before it begins, and each ends
    /// before the next one begins.
    pub open spec fn sorted_entries(&self, start: int, count: int) -> bool {
        &&& forall|i: int|
            #![trigger self.first_ip(start + i * self.seg_size())]
            0 <= i < count ==> self.first_ip(start + i * self.seg_size()) <= self.last_ip(
                start + i * self.seg_size(),
            )
        &&& forall|i: int, j: int|
            #![trigger self.last_ip(start + i * self.seg_size()), self.first_ip(start + j * self.seg_size())]
            0 <= i < j < count ==> self.last_ip(start + i * self.seg_size()) < self.first_ip(
                start + j * self.seg_size(),
            )
    }
}

/// The entry that the search finds holds the address.
pub proof fn law_found_entry_holds_the_address(db: &GeoDb, ip: Seq<u8>, start: int, lo: int, hi: int)
    ensures
        db.probe(ip, start, lo, hi) is Some ==> db.place(ip, db.probe(ip, start, lo, hi)->0)
            == Place::Inside,
    decreases hi - lo,
{
    if lo < hi {
        let mid = (lo + hi) / 2;
        law_found_entry_holds_the_address(db, ip, start, lo, mid);
        law_found_entry_holds_the_address(db, ip, start, mid + 1, hi);
    }
}

/// In a sorted index the search finds the entry that holds the address if there is one.
pub proof fn law_search_finds_the_entry(
    db: &GeoDb,
    ip: Seq<u8>,
    start: int,
    count: int,
    lo: int,
    hi: int,
    k: int,
)
    requires
        db.sorted_entries(start, count),
        0 <= lo <= k < hi <= count,
        db.place(ip, start + k * db.seg_size()) == Place::Inside,
    ensures
        db.probe(ip, start, lo, hi) == Some(start + k * db.seg_size()),
    decreases hi - lo,
{
    let size = db.seg_size();
    let mid = (lo + hi) / 2;
    let at = start + mid * size;
    assert(db.first_ip(at) <= db.last_ip(at));
    if mid < k {
        assert(db.last_ip(start + mid * size) < db.first_ip(start + k * size));
        law_search_finds_the_entry(db, ip, start, count, mid + 1, hi, k);
    } else if k < mid {
        assert(db.last_ip(start + k * size) < db.first_ip(start + mid * size));
        law_search_finds_the_entry(db, ip, start, count, lo, mid, k);
    }
}

// ---------------------------------------------------------------------------
// What is written is found
// ---------------------------------------------------------------------------

/// The number that some bytes spell, high byte first.
pub open spec fn spelled(b: Seq<u8>) -> int
    decreases b.len(),
{
    if b.len() == 0 {
        0
    } else {
        spelled(b.drop_last()) * 256 + b.last()
    }
}

/// A number of two bytes as it is stored, low byte first.
pub open spec fn stored16(n: int) -> Seq<u8> {
    seq![(n % 256) as u8, (n / 256) as u8]
}

/// A number of four bytes as it is stored, low byte first.
pub open spec fn stored32(n: int) -> Seq<u8> {
    seq![
        (n % 256) as u8,
        (n / 256 % 256) as u8,
        (n / 65_536 % 256) as u8,
        (n / 16_777_216) as u8,
    ]
}

/// An index entry as it is stored: the first and the last address, the length of the text
/// and where it stands. The four bytes of an IPv4 address are stored low byte first, the
/// sixteen of an IPv6 address as they are.
pub open spec fn stored_entry(first: Seq<u8>, last: Seq<u8>, len: int, ptr: int) -> Seq<u8> {
    if first.len() == 4 {
        first.reverse() + last.reverse() + stored16(len) + stored32(ptr)
    } else {
        first + last + stored16(len) + stored32(ptr)
    }
}

/// Whether some bytes stand at an offset of a file.
pub open spec fn stands(buf: Seq<u8>, off: int, bytes: Seq<u8>) -> bool {
    0 <= off && off + bytes.len() <= buf.len() && buf.subrange(off, off + bytes.len()) == bytes
}

proof fn lemma_spelled4(b: Seq<u8>)
    requires
        b.len() == 4,
    ensures
        spelled(b) == b[0] * 16_777_216 + b[1] * 65_536 + b[2] * 256 + b[3],
{
    reveal_with_fuel(spelled, 5);
    let c = b.drop_last();
    let d = c.drop_last();
    let e = d.drop_last();
    assert(e.drop_last().len() == 0);
}

/// The last four of some bytes count as one number of four bytes.
pub proof fn lemma_spelled_more(b: Seq<u8>)
    requires
        b.len() >= 4,
    ensures
        spelled(b) == spelled(b.take(b.len() - 4)) * 0x1_0000_0000 + b[b.len() - 4] * 16_777_216 + b[b.len()
            - 3] * 65_536 + b[b.len() - 2] * 256 + b[b.len() - 1],
{
    let n = b.len() as int;
    let c = b.drop_last();
    let d = c.drop_last();
    let e = d.drop_last();
    assert(e.drop_last() =~= b.take(n - 4));
    assert(spelled(e) == spelled(b.take(n - 4)) * 256 + b[n - 4]);
    assert(spelled(d) == spelled(e) * 256 + b[n - 3]);
    assert(spelled(c) == spelled(d) * 256 + b[n - 2]);
    assert(spelled(b) == spelled(c) * 256 + b[n - 1]);
}

proof fn lemma_spelled16(b: Seq<u8>, o: int, s: Seq<u8>)
    requires
        s.len() == 16,
        0 <= o,
        o + 16 <= b.len(),
        b.subrange(o, o + 16) == s,
    ensures
        be128(b, o) == spelled(s),
{
    lemma_spelled_more(s);
    let t = s.take(12);
    lemma_spelled_more(t);
    let u = t.take(8);
    lemma_spelled_more(u);
    let v = u.take(4);
    lemma_spelled_more(v);
    assert(v.take(0) =~= Seq::<u8>::empty());
    assert forall|i: int| 0 <= i < 16 implies b[o + i] == s[i] by {
        assert(b.subrange(o, o + 16)[i] == b[o + i]);
    }
    assert(be32(b, o + 12) == s[12] * 16_777_216 + s[13] * 65_536 + s[14] * 256 + s[15]);
    assert(be32(b, o + 8) == s[8] * 16_777_216 + s[9] * 65_536 + s[10] * 256 + s[11]);
    assert(be32(b, o + 4) == s[4] * 16_777_216 + s[5] * 65_536 + s[6] * 256 + s[7]);
    assert(be32(b, o) == s[0] * 16_777_216 + s[1] * 65_536 + s[2] * 256 + s[3]);
}

proof fn lemma_stored16(b: Seq<u8>, o: int, n: int)
    requires
        0 <= n < 65_536,
        stands(b, o, stored16(n)),
    ensures
        le16(b, o) == n,
{
    let s = stored16(n);
    assert(b.subrange(o, o + 2)[0] == s[0] && b.subrange(o, o + 2)[1] == s[1]);
}

proof fn lemma_stored32(b: Seq<u8>, o: int, n: int)
    requires
        0 <= n < 0x1_0000_0000,
        stands(b, o, stored32(n)),
    ensures
        le32(b, o) == n,
{
    let s = stored32(n);
    let t = b.subrange(o, o + 4);
    assert(t[0] == s[0] && t[1] == s[1] && t[2] == s[2] && t[3] == s[3]);
    assert(t[0] == b[o] && t[1] == b[o + 1] && t[2] == b[o + 2] && t[3] == b[o + 3]);
    assert(n / 65_536 == n / 256 / 256 && n / 16_777_216 == n / 65_536 / 256);
}

proof fn lemma_stands_part(b: Seq<u8>, off: int, all: Seq<u8>, i: int, part: Seq<u8>)
    requires
        stands(b, off, all),
        0 <= i,
        i + part.len() <= all.len(),
        all.subrange(i, i + part.len()) == part,
    ensures
        stands(b, off + i, part),
{
    assert forall|k: int| 0 <= k < part.len() implies b[off + i + k] == part[k] by {
        assert(b.subrange(off, off + all.len())[i + k] == b[off + i + k]);
        assert(all.subrange(i, i + part.len())[k] == all[i + k]);
    }
    assert(b.subrange(off + i, off + i + part.len()) =~= part);
}

/// An entry that stands in a file says what it was made of: it holds exactly the addresses
/// from the first to the last, and gives the region that its text describes, for files of
/// both kinds.
pub proof fn law_entry_says_what_was_stored(
    db: &GeoDb,
    off: int,
    first: Seq<u8>,
    last: Seq<u8>,
    len: int,
    ptr: int,
    ip: Seq<u8>,
)
    requires
        db.ipv6 ==> first.len() == 16,
        !db.ipv6 ==> first.len() == 4,
        last.len() == first.len(),
        ip.len() == first.len(),
        0 <= len < 65_536,
        0 <= ptr < 0x1_0000_0000,
        stands(db.buf@, off, stored_entry(first, last, len, ptr)),
    ensures
        db.place(ip, off) == if spelled(ip) < spelled(first) {
            Place::Below
        } else if spelled(ip) > spelled(last) {
            Place::Above
        } else {
            Place::Inside
        },
        ptr + len <= db.buf@.len() && vstd::utf8::valid_utf8(db.buf@.subrange(ptr, ptr + len))
            ==> db.region_at(off) == Some(
            region_of(vstd::utf8::decode_utf8(db.buf@.subrange(ptr, ptr + len))),
        ),
        ptr + len > db.buf@.len() || !vstd::utf8::valid_utf8(db.buf@.subrange(ptr, ptr + len))
            ==> db.region_at(off) is None,
{
    let e = stored_entry(first, last, len, ptr);
    let n = first.len() as int;
    let b = db.buf@;
    assert(e.subrange(2 * n, 2 * n + 2) =~= stored16(len));
    assert(e.subrange(2 * n + 2, 2 * n + 6) =~= stored32(ptr));
    lemma_stands_part(b, off, e, 2 * n, stored16(len));
    lemma_stands_part(b, off, e, 2 * n + 2, stored32(ptr));
    lemma_stored16(b, off + 2 * n, len);
    lemma_stored32(b, off + 2 * n + 2, ptr);
    if n == 16 {
        assert(e.subrange(0, 16) =~= first);
        assert(e.subrange(16, 32) =~= last);
        lemma_stands_part(b, off, e, 0, first);
        lemma_stands_part(b, off, e, 16, last);
        lemma_spelled16(b, off, first);
        lemma_spelled16(b, off + 16, last);
        assert(ip.subrange(0, 16) =~= ip);
        lemma_spelled16(ip, 0, ip);
    } else {
        assert(e.subrange(0, 4) =~= first.reverse());
        assert(e.subrange(4, 8) =~= last.reverse());
        lemma_stands_part(b, off, e, 0, first.reverse());
        lemma_stands_part(b, off, e, 4, last.reverse());
        lemma_spelled4(first);
        lemma_spelled4(last);
        lemma_spelled4(ip);
        let x = b.subrange(off, off + 4);
        let y = b.subrange(off + 4, off + 8);
        assert(x[0] == first[3] && x[1] == first[2] && x[2] == first[1] && x[3] == first[0]);
        assert(y[0] == last[3] && y[1] == last[2] && y[2] == last[1] && y[3] == last[0]);
        assert(x[0] == b[off] && x[1] == b[off + 1] && x[2] == b[off + 2] && x[3] == b[off + 3]);
        assert(y[0] == b[off + 4] && y[1] == b[off + 5] && y[2] == b[off + 6] && y[3] == b[off + 7]);
    }
}

/// Number `i` of some index entries.
pub struct StoredEntry {
    pub first: Seq<u8>,
    pub last: Seq<u8>,
    pub len: int,
    pub ptr: int,
}

/// Whether index entries for addresses of `n` bytes stand in a file from `start` on, one
/// behind the other, in the order of their addresses.
pub open spec fn stands_index(buf: Seq<u8>, start: int, n: int, es: Seq<StoredEntry>) -> bool {
    &&& forall|i: int|
        0 <= i < es.len() ==> {
            &&& (#[trigger] es[i]).first.len() == n
            &&& es[i].last.len() == n
            &&& 0 <= es[i].len < 65_536
            &&& 0 <= es[i].ptr < 0x1_0000_0000
            &&& spelled(es[i].first) <= spelled(es[i].last)
            &&& stands(
                buf,
                start + i * (2 * n + 6),
                stored_entry(es[i].first, es[i].last, es[i].len, es[i].ptr),
            )
        }
    &&& forall|i: int, j: int|
        0 <= i < j < es.len() ==> spelled((#[trigger] es[i]).last) < spelled(
            (#[trigger] es[j]).first,
        )
}

/// An address is found if the entry that holds it stands in the index: the first two
/// bytes of the address lead to the pair of pointers behind the header, these to the
/// entries, and the entry to its text. This holds of files of both kinds.
pub proof fn law_stored_address_is_found(
    db: &GeoDb,
    ip: Seq<u8>,
    start: int,
    es: Seq<StoredEntry>,
    k: int,
)
    requires
        db.ipv6 ==> ip.len() == 16,
        !db.ipv6 ==> ip.len() == 4,
        0 < start,
        0 <= k < es.len(),
        start + es.len() * (2 * ip.len() + 6) <= db.buf@.len(),
        start + es.len() * (2 * ip.len() + 6) < 0x1_0000_0000,
        stands(
            db.buf@,
            256 + 8 * (256 * ip[0] + ip[1]),
            stored32(start) + stored32(start + es.len() * (2 * ip.len() + 6)),
        ),
        stands_index(db.buf@, start, ip.len() as int, es),
        spelled(es[k].first) <= spelled(ip) <= spelled(es[k].last),
        es[k].ptr + es[k].len <= db.buf@.len(),
        vstd::utf8::valid_utf8(db.buf@.subrange(es[k].ptr, es[k].ptr + es[k].len)),
    ensures
        db.found(ip) == Some(
            region_of(
                vstd::utf8::decode_utf8(db.buf@.subrange(es[k].ptr, es[k].ptr + es[k].len)),
            ),
        ),
{
    let n = ip.len() as int;
    let size = 2 * n + 6;
    let count = es.len() as int;
    let end = start + count * size;
    let at = 256 + 8 * (256 * ip[0] + ip[1]);
    let pair = stored32(start) + stored32(end);
    assert(count * size > 0) by (nonlinear_arith)
        requires
            count > 0,
            size > 0,
    ;
    assert(pair.subrange(0, 4) =~= stored32(start));
    assert(pair.subrange(4, 8) =~= stored32(end));
    lemma_stands_part(db.buf@, at, pair, 0, stored32(start));
    lemma_stands_part(db.buf@, at, pair, 4, stored32(end));
    lemma_stored32(db.buf@, at, start);
    lemma_stored32(db.buf@, at + 4, end);
    assert((end - start) / size == count) by (nonlinear_arith)
        requires
            end - start == count * size,
            size > 0,
    ;
    assert(db.seg_size() == size);
    assert(db.entries(ip) == (start, count));
    assert forall|i: int| 0 <= i < count implies db.first_ip(#[trigger] (start + i * size)) == spelled(
        es[i].first,
    ) && db.last_ip(start + i * size) == spelled(es[i].last) by {
        let e = es[i];
        let off = start + i * size;
        law_entry_says_what_was_stored(db, off, e.first, e.last, e.len, e.ptr, e.first);
        law_entry_says_what_was_stored(db, off, e.first, e.last, e.len, e.ptr, e.last);
        lemma_bounds(db, off, e);
    }
    assert(db.sorted_entries(start, count)) by {
        assert forall|i: int|
            #![trigger db.first_ip(start + i * db.seg_size())]
            0 <= i < count implies db.first_ip(start + i * db.seg_size()) <= db.last_ip(
            start + i * db.seg_size(),
        ) by {
            assert(db.first_ip(start + i * size) == spelled(es[i].first));
        }
        assert forall|i: int, j: int|
            #![trigger db.last_ip(start + i * db.seg_size()), db.first_ip(start + j * db.seg_size())]
            0 <= i < j < count implies db.last_ip(start + i * db.seg_size()) < db.first_ip(
            start + j * db.seg_size(),
        ) by {
            assert(db.last_ip(start + i * size) == spelled(es[i].last));
            assert(db.first_ip(start + j * size) == spelled(es[j].first));
        }
    }
    let e = es[k];
    law_entry_says_what_was_stored(db, start + k * size, e.first, e.last, e.len, e.ptr, ip);
    law_search_finds_the_entry(db, ip, start, count, 0, count, k);
}

/// What `place` compares with.
proof fn lemma_bounds(db: &GeoDb, off: int, e: StoredEntry)
    requires
        db.ipv6 ==> e.first.len() == 16,
        !db.ipv6 ==> e.first.len() == 4,
        e.last.len() == e.first.len(),
        stands(db.buf@, off, stored_entry(e.first, e.last, e.len, e.ptr)),
    ensures
        db.first_ip(off) == spelled(e.first),
        db.last_ip(off) == spelled(e.last),
{
    let all = stored_entry(e.first, e.last, e.len, e.ptr);
    let b = db.buf@;
    if e.first.len() == 16 {
        assert(all.subrange(0, 16) =~= e.first);
        assert(all.subrange(16, 32) =~= e.last);
        lemma_stands_part(b, off, all, 0, e.first);
        lemma_stands_part(b, off, all, 16, e.last);
        lemma_spelled16(b, off, e.first);
        lemma_spelled16(b, off + 16, e.last);
    } else {
        assert(all.subrange(0, 4) =~= e.first.reverse());
        assert(all.subrange(4, 8) =~= e.last.reverse());
        lemma_stands_part(b, off, all, 0, e.first.reverse());
        lemma_stands_part(b, off, all, 4, e.last.reverse());
        lemma_spelled4(e.first);
        lemma_spelled4(e.last);
        let x = b.subrange(off, off + 4);
        let y = b.subrange(off + 4, off + 8);
        assert(x[0] == e.first[3] && x[1] == e.first[2] && x[2] == e.first[1] && x[3] == e.first[0]);
        assert(y[0] == e.last[3] && y[1] == e.last[2] && y[2] == e.last[1] && y[3] == e.last[0]);
        assert(x[0] == b[off] && x[1] == b[off + 1] && x[2] == b[off + 2] && x[3] == b[off + 3]);
        assert(y[0] == b[off + 4] && y[1] == b[off + 5] && y[2] == b[off + 6] && y[3] == b[off + 7]);
    }
}

/// A field as a region shows it: without white space around it, and empty if it is the
/// mark for unknown.
pub open spec fn field_shown(f: Seq<char>) -> Seq<char> {
    if trimmed(f) == "0"@ { Seq::empty() } else { trimmed(f) }
}

/// A text of five fields between bars gives country, province, city, carrier and country
/// code, in that order.
pub proof fn law_fields_make_the_region(a: Seq<char>, b: Seq<char>, c: Seq<char>, d: Seq<char>, e: Seq<char>)
    requires
        !a.contains('|'),
        !b.contains('|'),
        !c.contains('|'),
        !d.contains('|'),
        !e.contains('|'),
    ensures
        region_of(a.push('|') + (b.push('|') + (c.push('|') + (d.push('|') + e)))) == (RegionView {
            country: field_shown(a),
            province: field_shown(b),
            city: field_shown(c),
            isp: field_shown(d),
            country_code: field_shown(e),
        }),
{
    let s4 = d.push('|') + e;
    let s3 = c.push('|') + s4;
    let s2 = b.push('|') + s3;
    let s1 = a.push('|') + s2;
    law_split_of_two(a, s2, '|');
    law_split_of_two(b, s3, '|');
    law_split_of_two(c, s4, '|');
    law_split_of_two(d, e, '|');
    law_split_without_separator(a, '|');
    law_split_without_separator(b, '|');
    law_split_without_separator(c, '|');
    law_split_without_separator(d, '|');
    law_split_without_separator(e, '|');
    assert(split_on(s1, '|') =~= seq![a, b, c, d, e]);
}

/// A file is opened if it has room for its header and an index of 256 times 256 entries
/// of eight bytes, and its first two bytes, the lower one first, are a known version.
/// Its addresses are long ones if the version tells so.
pub proof fn law_known_files_are_opened(buf: Vec<u8>, r: Result<GeoDb, String>)
    requires
        GeoDb::opens(buf, r),
    ensures
        r is Ok <==> buf@.len() >= 256 + 256 * 256 * 8 && buf@[1] == 0 && (buf@[0] == 2 || buf@[0] == 3),
        r is Ok ==> r->Ok_0.buf == buf,
        r is Ok ==> (r->Ok_0.ipv6 <==> buf@[0] == 3 && buf@[16] == 6 && buf@[17] == 0),
{
}

} // verus!

//! Regions of addresses, on a small file made here.

use xfer::geo::{parse_region, GeoDb};

const INDEX: usize = 256;
const DATA: usize = 524_544;

fn put(buf: &mut [u8], at: usize, bytes: &[u8]) {
    buf[at..at + bytes.len()].copy_from_slice(bytes);
}

/// A file for IPv4 addresses with one entry per region.
fn small_db() -> GeoDb {
    let regions: [([u8; 4], [u8; 4], &str); 3] = [
        ([8, 8, 8, 0], [8, 8, 8, 255], "United States|California|0|Google|US"),
        ([114, 114, 114, 0], [114, 114, 115, 255], "中国|江苏省|南京市|0|CN"),
        ([223, 5, 5, 0], [223, 5, 5, 255], "中国|浙江省|杭州市|阿里|CN"),
    ];
    let mut buf = vec![0u8; DATA];
    put(&mut buf, 0, &2u16.to_le_bytes());
    for (first, last, text) in regions {
        let ptr = buf.len() as u32;
        buf.extend_from_slice(text.as_bytes());
        let entry = buf.len() as u32;
        buf.extend_from_slice(&u32::from_be_bytes(first).to_le_bytes());
        buf.extend_from_slice(&u32::from_be_bytes(last).to_le_bytes());
        buf.extend_from_slice(&(text.len() as u16).to_le_bytes());
        buf.extend_from_slice(&ptr.to_le_bytes());
        let slot = INDEX + (first[0] as usize * 256 + first[1] as usize) * 8;
        put(&mut buf, slot, &entry.to_le_bytes());
        put(&mut buf, slot + 4, &(entry + 14).to_le_bytes());
    }
    GeoDb::from_bytes(buf).unwrap_or_else(|e| panic!("{e}"))
}

#[test]
fn china_dns_ip() {
    let r = small_db().search_bytes(&vec![114, 114, 114, 114]).unwrap();
    assert_eq!(r.country, "中国");
    assert_eq!(r.province, "江苏省");
    assert_eq!(r.city, "南京市");
    assert_eq!(r.country_code, "CN");
    assert_eq!(r.isp, "");
}

#[test]
fn google_dns_ip() {
    let r = small_db().search_bytes(&vec![8, 8, 8, 8]).unwrap();
    assert_eq!(r.country, "United States");
    assert_eq!(r.country_code, "US");
}

#[test]
fn aliyun_dns_ip() {
    let r = small_db().search_bytes(&vec![223, 5, 5, 5]).unwrap();
    assert_eq!(r.country, "中国");
    assert_eq!(r.isp, "阿里");
}

#[test]
fn addresses_that_are_not_listed_have_no_region() {
    let db = small_db();
    assert!(!db.is_ipv6());
    assert!(db.search_bytes(&vec![8, 8, 9, 1]).is_none());
    assert!(db.search_bytes(&vec![1, 2, 3, 4]).is_none());
}

#[test]
fn malformed_files_are_refused() {
    assert_eq!(
        GeoDb::from_bytes(vec![0u8; 100]).err().unwrap(),
        "xdb 文件过小，缺少头部或向量索引"
    );
    let mut buf = vec![0u8; DATA];
    put(&mut buf, 0, &9u16.to_le_bytes());
    assert_eq!(GeoDb::from_bytes(buf).err().unwrap(), "未知 xdb 结构版本: 9");
}

#[test]
fn text_that_is_not_utf8_is_no_region() {
    let mut db = small_db();
    let at = DATA;
    db.buf[at] = 0xff;
    assert!(db.search_bytes(&vec![8, 8, 8, 8]).is_none());
}

#[test]
fn parts_of_a_region_text() {
    let r = parse_region(" A |0| C ");
    assert_eq!(r.country, "A");
    assert_eq!(r.province, "");
    assert_eq!(r.city, "C");
    assert_eq!(r.isp, "");
}

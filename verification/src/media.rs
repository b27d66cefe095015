//! HLS media playlists: segments, keys and byte ranges.

use vstd::prelude::*;

use crate::manifest::{
    attr, attr_value, attributes, attributes_of, byte_range, byterange_chars, clean_chars, cleaned,
    is_iv_hex, iv_bytes, iv_digits, iv_from_sequence, line_parts, pair_texts, parse_iv, resolve_chars,
    resolved, sequence_iv,
};
use crate::text::{
    chars_of, has_prefix, lemma_number_range, number, parse_u64, push_all, push_str, same_text, split, string_of,
    strip_prefix, texts, to_upper, trim, trimmed, uppered,
};

verus! {

/// Key of an encrypted segment.
pub struct SegmentKey {
    /// Address of the key.
    pub url: String,
    /// Initialisation vector.
    pub iv: [u8; 16],
}

/// One part of the media, or its initialisation part.
pub struct Segment {
    /// Absolute address.
    pub url: String,
    /// Offset and length within the address; the whole of it if none.
    pub range: Option<(u64, u64)>,
    /// Key, if the segment is encrypted.
    pub key: Option<SegmentKey>,
    /// Size in bytes, as far as it is known.
    pub size: Option<u64>,
}

/// A parsed media playlist.
pub struct MediaPlaylist {
    pub segments: Vec<Segment>,
    pub init: Option<Segment>,
    pub live: bool,
}

/// A key as a value.
pub struct KeyView {
    pub url: Seq<char>,
    pub iv: Seq<u8>,
}

/// A segment as a value.
pub struct SegmentView {
    pub url: Seq<char>,
    pub range: Option<(u64, u64)>,
    pub key: Option<KeyView>,
    pub size: Option<u64>,
}

impl SegmentKey {
    pub open spec fn view(&self) -> KeyView {
        KeyView { url: self.url@, iv: self.iv@ }
    }
}

impl Clone for SegmentKey {
    fn clone(&self) -> (r: Self)
        ensures
            r == *self,
    {
        SegmentKey { url: self.url.clone(), iv: self.iv }
    }
}

impl Segment {
    pub open spec fn view(&self) -> SegmentView {
        SegmentView {
            url: self.url@,
            range: self.range,
            key: match self.key {
                Some(k) => Some(k.view()),
                None => None,
            },
            size: self.size,
        }
    }
}

impl Clone for Segment {
    fn clone(&self) -> (r: Self)
        ensures
            r == *self,
    {
        Segment {
            url: self.url.clone(),
            range: self.range,
            key: match &self.key {
                Some(k) => Some(k.clone()),
                None => None,
            },
            size: self.size,
        }
    }
}

/// The values of some segments.
pub open spec fn segment_views(v: Seq<Segment>) -> Seq<SegmentView> {
    Seq::new(v.len(), |i: int| v[i].view())
}

/// The value of a segment that may be missing.
pub open spec fn segment_option(s: Option<Segment>) -> Option<SegmentView> {
    match s {
        Some(x) => Some(x.view()),
        None => None,
    }
}

/// A key whose vector may still depend on the segment.
pub struct PendingView {
    pub url: Seq<char>,
    pub iv: Option<Seq<u8>>,
}

/// What is known after some lines of a media playlist.
pub struct MediaView {
    pub segments: Seq<SegmentView>,
    pub init: Option<SegmentView>,
    pub key: Option<PendingView>,
    /// Media sequence number of the next segment.
    pub sequence: u64,
    /// Length of the next byte range and its offset; the largest number stands for none.
    pub next_range: Option<(u64, u64)>,
    /// Address and end of the last byte range.
    pub last_end: Option<(Seq<char>, u64)>,
    pub endlist: bool,
}

/// What is known before the first line.
pub open spec fn media_start() -> MediaView {
    MediaView {
        segments: Seq::empty(),
        init: None,
        key: None,
        sequence: 0,
        next_range: None,
        last_end: None,
        endlist: false,
    }
}

/// Sum of two numbers, wrapped to 64 bits.
pub open spec fn wrap_sum(a: u64, b: u64) -> u64 {
    if a + b > u64::MAX { (a + b - u64::MAX - 1) as u64 } else { (a + b) as u64 }
}

/// The method of a key line, in capitals; none given means no encryption.
pub open spec fn key_method(attrs: Seq<(Seq<char>, Seq<char>)>) -> Seq<char> {
    uppered(trimmed(match attr_value(attrs, "METHOD"@) {
        Some(m) => m,
        None => "NONE"@,
    }))
}

/// The key after a key line.
pub open spec fn key_line(attrs: Seq<(Seq<char>, Seq<char>)>, base: Seq<char>) -> Result<
    Option<PendingView>,
    Seq<char>,
> {
    let method = key_method(attrs);
    if method == "NONE"@ {
        Ok(None)
    } else if method == "AES-128"@ {
        match attr_value(attrs, "URI"@) {
            None => Err("EXT-X-KEY(AES-128) 缺少 URI"@),
            Some(uri) => match resolved(base, uri) {
                None => Err("密钥地址无法解析"@),
                Some(url) => match attr_value(attrs, "IV"@) {
                    None => Ok(Some(PendingView { url, iv: None })),
                    Some(v) => if is_iv_hex(iv_digits(v)) {
                        Ok(Some(PendingView { url, iv: Some(iv_bytes(iv_digits(v))) }))
                    } else {
                        Err("EXT-X-KEY 的 IV 非法"@)
                    },
                },
            },
        }
    } else {
        Err("暂不支持 "@ + method + " 加密的播放列表（仅支持 AES-128 与明文）"@)
    }
}

/// The initialisation part of a map line. It is never encrypted.
pub open spec fn map_line(attrs: Seq<(Seq<char>, Seq<char>)>, base: Seq<char>) -> Result<
    SegmentView,
    Seq<char>,
> {
    match attr_value(attrs, "URI"@) {
        None => Err("EXT-X-MAP 缺少 URI"@),
        Some(uri) => match resolved(base, uri) {
            None => Err("初始化段地址无法解析"@),
            Some(url) => match attr_value(attrs, "BYTERANGE"@) {
                None => Ok(SegmentView { url, range: None, key: None, size: None }),
                Some(v) => match byte_range(v) {
                    None => Err("EXT-X-MAP BYTERANGE 非法"@),
                    Some(r) => Ok(
                        SegmentView {
                            url,
                            range: Some((if r.1 is Some { r.1->0 } else { 0 }, r.0)),
                            key: None,
                            size: Some(r.0),
                        },
                    ),
                },
            },
        },
    }
}

/// Where the next byte range of the address begins: at the given offset, else behind
/// the last range of the same address, else at the start.
pub open spec fn range_start(st: MediaView, url: Seq<char>) -> u64 {
    let off = (st.next_range->0).1;
    if off != u64::MAX {
        off
    } else {
        match st.last_end {
            Some(e) => if e.0 == url {
                e.1
            } else {
                0
            },
            None => 0,
        }
    }
}

/// What is known after the address of a segment.
pub open spec fn uri_line(st: MediaView, url: Seq<char>) -> MediaView {
    let range = match st.next_range {
        Some(r) => Some((range_start(st, url), r.0)),
        None => None,
    };
    let seg = SegmentView {
        url,
        range,
        key: match st.key {
            Some(k) => Some(
                KeyView {
                    url: k.url,
                    iv: match k.iv {
                        Some(iv) => iv,
                        None => sequence_iv(st.sequence),
                    },
                },
            ),
            None => None,
        },
        size: match range {
            Some(r) => Some(r.1),
            None => None,
        },
    };
    MediaView {
        segments: st.segments.push(seg),
        sequence: wrap_sum(st.sequence, 1),
        next_range: None,
        last_end: match range {
            Some(r) => Some((url, wrap_sum(r.0, r.1))),
            None => st.last_end,
        },
        ..st
    }
}

/// What follows a tag in a line.
pub open spec fn behind(line: Seq<char>, tag: Seq<char>) -> Seq<char> {
    line.skip(tag.len() as int)
}

/// What is known after one more line.
pub open spec fn media_line(st: MediaView, raw: Seq<char>, base: Seq<char>) -> Result<
    MediaView,
    Seq<char>,
> {
    let line = trimmed(raw);
    if line.len() == 0 {
        Ok(st)
    } else if has_prefix(line, "#EXT-X-MEDIA-SEQUENCE:"@) {
        let n = number(trimmed(behind(line, "#EXT-X-MEDIA-SEQUENCE:"@)));
        Ok(MediaView { sequence: if n is Some { n->0 as u64 } else { 0 }, ..st })
    } else if has_prefix(line, "#EXT-X-KEY:"@) {
        match key_line(attributes(behind(line, "#EXT-X-KEY:"@)), base) {
            Ok(k) => Ok(MediaView { key: k, ..st }),
            Err(e) => Err(e),
        }
    } else if has_prefix(line, "#EXT-X-MAP:"@) {
        match map_line(attributes(behind(line, "#EXT-X-MAP:"@)), base) {
            Ok(m) => Ok(MediaView { init: Some(m), ..st }),
            Err(e) => Err(e),
        }
    } else if has_prefix(line, "#EXT-X-BYTERANGE:"@) {
        match byte_range(behind(line, "#EXT-X-BYTERANGE:"@)) {
            None => Err("EXT-X-BYTERANGE 非法"@),
            Some(r) => Ok(
                MediaView {
                    next_range: Some((r.0, if r.1 is Some { r.1->0 } else { u64::MAX })),
                    ..st
                },
            ),
        }
    } else if line == "#EXT-X-ENDLIST"@ {
        Ok(MediaView { endlist: true, ..st })
    } else if line[0] == '#' {
        Ok(st)
    } else {
        match resolved(base, line) {
            None => Err("分片地址无法解析: "@ + line),
            Some(url) => Ok(uri_line(st, url)),
        }
    }
}

/// What is known after some lines, or the first error.
pub open spec fn media_scan(lines: Seq<Seq<char>>, base: Seq<char>) -> Result<MediaView, Seq<char>>
    decreases lines.len(),
{
    if lines.len() == 0 {
        Ok(media_start())
    } else {
        match media_scan(lines.drop_last(), base) {
            Ok(st) => media_line(st, lines.last(), base),
            Err(e) => Err(e),
        }
    }
}

/// What a media playlist says.
pub open spec fn media_of(text: Seq<char>, base: Seq<char>) -> Result<MediaView, Seq<char>> {
    media_scan(line_parts(cleaned(text)), base)
}

struct PendingKey {
    url: String,
    iv: Option<[u8; 16]>,
}

impl PendingKey {
    spec fn view(&self) -> PendingView {
        PendingView {
            url: self.url@,
            iv: match self.iv {
                Some(v) => Some(v@),
                None => None,
            },
        }
    }
}

struct MediaState {
    segments: Vec<Segment>,
    init: Option<Segment>,
    key: Option<PendingKey>,
    sequence: u64,
    next_range: Option<(u64, u64)>,
    last_end: Option<(String, u64)>,
    endlist: bool,
}

impl MediaState {
    spec fn view(&self) -> MediaView {
        MediaView {
            segments: segment_views(self.segments@),
            init: segment_option(self.init),
            key: match self.key {
                Some(k) => Some(k.view()),
                None => None,
            },
            sequence: self.sequence,
            next_range: self.next_range,
            last_end: match self.last_end {
                Some(e) => Some((e.0@, e.1)),
                None => None,
            },
            endlist: self.endlist,
        }
    }

    fn on_uri(&mut self, url: String)
        ensures
            final(self).view() == uri_line(old(self).view(), url@),
    {
        let ghost before = self.view();
        let range: Option<(u64, u64)> = match self.next_range {
            None => None,
            Some(r) => {
                let start: u64 = if r.1 != u64::MAX {
                    r.1
                } else {
                    match &self.last_end {
                        Some(e) => {
                            let a = chars_of(e.0.as_str());
                            if same_text(&a, url.as_str()) {
                                e.1
                            } else {
                                0
                            }
                        },
                        None => 0,
                    }
                };
                Some((start, r.0))
            },
        };
        self.next_range = None;
        if let Some(r) = range {
            self.last_end = Some((url.clone(), r.0.wrapping_add(r.1)));
        }
        let key: Option<SegmentKey> = match &self.key {
            None => None,
            Some(k) => Some(
                SegmentKey {
                    url: k.url.clone(),
                    iv: match k.iv {
                        Some(iv) => iv,
                        None => iv_from_sequence(self.sequence),
                    },
                },
            ),
        };
        let size: Option<u64> = match range {
            Some(r) => Some(r.1),
            None => None,
        };
        let seg = Segment { url, range, key, size };
        let ghost shown = seg.view();
        self.segments.push(seg);
        self.sequence = self.sequence.wrapping_add(1);
        proof {
            assert(segment_views(self.segments@) =~= before.segments.push(shown));
            let after = uri_line(before, url@);
            assert(shown == after.segments.last());
            assert(self.view().segments == after.segments);
            assert(self.view().last_end == after.last_end);
            assert(self.view() == after);
        }
    }

    fn on_line(&mut self, raw: &Vec<char>, base: &str) -> (r: Result<(), String>)
        ensures
            match r {
                Ok(_) => media_line(old(self).view(), raw@, base@) == Ok::<MediaView, Seq<char>>(
                    final(self).view(),
                ),
                Err(e) => media_line(old(self).view(), raw@, base@) == Err::<MediaView, Seq<char>>(e@),
            },
    {
        let line = trim(raw);
        if line.len() == 0 {
            return Ok(());
        }
        if let Some(rest) = strip_prefix(&line, "#EXT-X-MEDIA-SEQUENCE:") {
            let t = trim(&rest);
            self.sequence = match parse_u64(&t) {
                Some(n) => n,
                None => 0,
            };
            return Ok(());
        }
        if let Some(rest) = strip_prefix(&line, "#EXT-X-KEY:") {
            let attrs = attributes_of(&rest);
            match read_key(&attrs, base) {
                Ok(k) => {
                    self.key = k;
                    return Ok(());
                },
                Err(e) => return Err(e),
            }
        }
        if let Some(rest) = strip_prefix(&line, "#EXT-X-MAP:") {
            let attrs = attributes_of(&rest);
            match read_map(&attrs, base) {
                Ok(m) => {
                    self.init = Some(m);
                    return Ok(());
                },
                Err(e) => return Err(e),
            }
        }
        if let Some(rest) = strip_prefix(&line, "#EXT-X-BYTERANGE:") {
            match byterange_chars(&rest) {
                None => return Err("EXT-X-BYTERANGE 非法".to_owned()),
                Some(r) => {
                    self.next_range = Some((
                        r.0,
                        match r.1 {
                            Some(off) => off,
                            None => u64::MAX,
                        },
                    ));
                    return Ok(());
                },
            }
        }
        if same_text(&line, "#EXT-X-ENDLIST") {
            self.endlist = true;
            return Ok(());
        }
        if line[0] == '#' {
            return Ok(());
        }
        match resolve_chars(base, &line) {
            None => {
                let mut m = chars_of("分片地址无法解析: ");
                push_all(&mut m, &line);
                Err(string_of(&m))
            },
            Some(url) => {
                self.on_uri(url);
                Ok(())
            },
        }
    }
}

fn read_key(attrs: &Vec<(String, String)>, base: &str) -> (r: Result<Option<PendingKey>, String>)
    ensures
        match r {
            Ok(k) => key_line(pair_texts(attrs@), base@) == Ok::<Option<PendingView>, Seq<char>>(
                match k {
                    Some(p) => Some(p.view()),
                    None => None,
                },
            ),
            Err(e) => key_line(pair_texts(attrs@), base@) == Err::<Option<PendingView>, Seq<char>>(e@),
        },
{
    let given = match attr(attrs, "METHOD") {
        Some(m) => chars_of(m.as_str()),
        None => chars_of("NONE"),
    };
    let t = trim(&given);
    let method = to_upper(&t);
    if same_text(&method, "NONE") {
        return Ok(None);
    }
    if !same_text(&method, "AES-128") {
        let mut m = chars_of("暂不支持 ");
        push_all(&mut m, &method);
        push_str(&mut m, " 加密的播放列表（仅支持 AES-128 与明文）");
        return Err(string_of(&m));
    }
    match attr(attrs, "URI") {
        None => Err("EXT-X-KEY(AES-128) 缺少 URI".to_owned()),
        Some(uri) => {
            let u = chars_of(uri.as_str());
            match resolve_chars(base, &u) {
                None => Err("密钥地址无法解析".to_owned()),
                Some(url) => match attr(attrs, "IV") {
                    None => Ok(Some(PendingKey { url, iv: None })),
                    Some(v) => match parse_iv(v.as_str()) {
                        Some(iv) => Ok(Some(PendingKey { url, iv: Some(iv) })),
                        None => Err("EXT-X-KEY 的 IV 非法".to_owned()),
                    },
                },
            }
        },
    }
}

fn read_map(attrs: &Vec<(String, String)>, base: &str) -> (r: Result<Segment, String>)
    ensures
        match r {
            Ok(s) => map_line(pair_texts(attrs@), base@) == Ok::<SegmentView, Seq<char>>(s.view()),
            Err(e) => map_line(pair_texts(attrs@), base@) == Err::<SegmentView, Seq<char>>(e@),
        },
{
    match attr(attrs, "URI") {
        None => Err("EXT-X-MAP 缺少 URI".to_owned()),
        Some(uri) => {
            let u = chars_of(uri.as_str());
            match resolve_chars(base, &u) {
                None => Err("初始化段地址无法解析".to_owned()),
                Some(url) => match attr(attrs, "BYTERANGE") {
                    None => Ok(Segment { url, range: None, key: None, size: None }),
                    Some(v) => {
                        let c = chars_of(v.as_str());
                        match byterange_chars(&c) {
                            None => Err("EXT-X-MAP BYTERANGE 非法".to_owned()),
                            Some(p) => {
                                let off: u64 = match p.1 {
                                    Some(o) => o,
                                    None => 0,
                                };
                                Ok(Segment { url, range: Some((off, p.0)), key: None, size: Some(p.0) })
                            },
                        }
                    },
                },
            }
        },
    }
}

/// Reads a media playlist at the address `base`.
pub fn parse_media(text: &str, base: &str) -> (r: Result<MediaPlaylist, String>)
    ensures
        match r {
            Ok(m) => media_of(text@, base@) is Ok && ({
                let st = media_of(text@, base@)->Ok_0;
                &&& segment_views(m.segments@) == st.segments
                &&& segment_option(m.init) == st.init
                &&& m.live == !st.endlist
            }),
            Err(e) => media_of(text@, base@) == Err::<MediaView, Seq<char>>(e@),
        },
{
    let v = clean_chars(text);
    let lines = split(&v, '\n');
    let ghost all = line_parts(cleaned(text@));
    let mut st = MediaState {
        segments: Vec::new(),
        init: None,
        key: None,
        sequence: 0,
        next_range: None,
        last_end: None,
        endlist: false,
    };
    let mut i: usize = 0;
    assert(all.take(0) =~= Seq::<Seq<char>>::empty());
    assert(segment_views(st.segments@) =~= Seq::<SegmentView>::empty());
    while i < lines.len()
        invariant
            i <= lines@.len(),
            texts(lines@) == all,
            all == line_parts(cleaned(text@)),
            media_scan(all.take(i as int), base@) == Ok::<MediaView, Seq<char>>(st.view()),
        decreases lines@.len() - i,
    {
        proof {
            assert(all.take(i + 1).drop_last() =~= all.take(i as int));
            assert(all[i as int] == lines@[i as int]@);
            assert(all.take(i + 1).last() == lines@[i as int]@);
        }
        match st.on_line(&lines[i], base) {
            Ok(_) => {},
            Err(e) => {
                proof {
                    lemma_error_stays(all, base@, i + 1, e@);
                }
                return Err(e);
            },
        }
        i = i + 1;
    }
    assert(all.take(i as int) =~= all);
    Ok(MediaPlaylist { segments: st.segments, init: st.init, live: !st.endlist })
}

/// An error on some lines is the error on all of them.
proof fn lemma_error_stays(lines: Seq<Seq<char>>, base: Seq<char>, k: int, e: Seq<char>)
    requires
        0 <= k <= lines.len(),
        media_scan(lines.take(k), base) == Err::<MediaView, Seq<char>>(e),
    ensures
        media_scan(lines, base) == Err::<MediaView, Seq<char>>(e),
    decreases lines.len() - k,
{
    if k == lines.len() {
        assert(lines.take(k) =~= lines);
    } else {
        assert(lines.take(k + 1).drop_last() =~= lines.take(k));
        lemma_error_stays(lines, base, k + 1, e);
    }
}

// ---------------------------------------------------------------------------
// What holds of each segment
// ---------------------------------------------------------------------------

/// Whether a line is the address of a segment.
pub open spec fn is_address(line: Seq<char>) -> bool {
    trimmed(line).len() > 0 && trimmed(line)[0] != '#'
}

/// Whether a line begins with a tag.
pub open spec fn has_tag(line: Seq<char>, tag: Seq<char>) -> bool {
    has_prefix(trimmed(line), tag)
}

/// What a line says behind its tag.
pub open spec fn tag_value(line: Seq<char>, tag: Seq<char>) -> Seq<char> {
    trimmed(line).skip(tag.len() as int)
}

/// The last of the first `p` lines that begins with a tag; -1 if none does.
pub open spec fn last_tag(lines: Seq<Seq<char>>, p: int, tag: Seq<char>) -> int
    decreases p,
{
    if p <= 0 {
        -1
    } else if has_tag(lines[p - 1], tag) {
        p - 1
    } else {
        last_tag(lines, p - 1, tag)
    }
}

/// How many of the lines from `a` on and before `b` are addresses.
pub open spec fn addresses(lines: Seq<Seq<char>>, a: int, b: int) -> int
    decreases b - a,
{
    if b <= a {
        0
    } else {
        addresses(lines, a, b - 1) + if is_address(lines[b - 1]) { 1int } else { 0 }
    }
}

/// Whether the line `k` asks for no encryption.
pub open spec fn clears_key(line: Seq<char>) -> bool {
    match attr_value(attributes(tag_value(line, "#EXT-X-KEY:"@)), "METHOD"@) {
        Some(m) => uppered(trimmed(m)) == "NONE"@,
        None => true,
    }
}

/// Whether the key line gives this key to a segment of this media sequence number.
pub open spec fn gives_key(line: Seq<char>, base: Seq<char>, sequence: u64, key: KeyView) -> bool {
    let attrs = attributes(tag_value(line, "#EXT-X-KEY:"@));
    &&& attr_value(attrs, "METHOD"@) is Some
    &&& uppered(trimmed(attr_value(attrs, "METHOD"@)->0)) == "AES-128"@
    &&& attr_value(attrs, "URI"@) is Some
    &&& resolved(base, attr_value(attrs, "URI"@)->0) == Some(key.url)
    &&& match attr_value(attrs, "IV"@) {
        Some(iv) => is_iv_hex(iv_digits(iv)) && key.iv == iv_bytes(iv_digits(iv)),
        None => key.iv == sequence_iv(sequence),
    }
}

/// The media sequence number of the segment whose address is line `p`: that of the last
/// line that sets one, and one more for each address since.
pub open spec fn sequence_at(lines: Seq<Seq<char>>, p: int) -> int {
    let q = last_tag(lines, p, "#EXT-X-MEDIA-SEQUENCE:"@);
    if q < 0 {
        addresses(lines, 0, p) % 0x1_0000_0000_0000_0000
    } else {
        let n = number(trimmed(tag_value(lines[q], "#EXT-X-MEDIA-SEQUENCE:"@)));
        ((if n is Some { n->0 } else { 0 }) + addresses(lines, q, p)) % 0x1_0000_0000_0000_0000
    }
}

/// The last segment that is a byte range; -1 if none is.
pub open spec fn last_ranged(segments: Seq<SegmentView>) -> int
    decreases segments.len(),
{
    if segments.len() == 0 {
        -1
    } else if segments.last().range is Some {
        segments.len() - 1
    } else {
        last_ranged(segments.drop_last())
    }
}

/// Where a byte range goes on: behind the last byte range among some segments if that is
/// of the same address, else at the start.
pub open spec fn goes_on(segments: Seq<SegmentView>, url: Seq<char>) -> int {
    let j = last_ranged(segments);
    if j >= 0 && segments[j].url == url {
        ((segments[j].range->0).0 + (segments[j].range->0).1) % 0x1_0000_0000_0000_0000
    } else {
        0
    }
}

proof fn lemma_tags(line: Seq<char>)
    ensures
        has_prefix(line, "#EXT-X-MEDIA-SEQUENCE:"@) ==> line.len() > 8 && line[0] == '#' && line[7]
            == 'M' && line[8] == 'E',
        has_prefix(line, "#EXT-X-KEY:"@) ==> line.len() > 8 && line[0] == '#' && line[7] == 'K',
        has_prefix(line, "#EXT-X-MAP:"@) ==> line.len() > 8 && line[0] == '#' && line[7] == 'M'
            && line[8] == 'A',
        has_prefix(line, "#EXT-X-BYTERANGE:"@) ==> line.len() > 8 && line[0] == '#' && line[7]
            == 'B',
        line == "#EXT-X-ENDLIST"@ ==> line.len() > 8 && line[0] == '#' && line[7] == 'E',
{
    reveal_strlit("#EXT-X-MEDIA-SEQUENCE:");
    reveal_strlit("#EXT-X-KEY:");
    reveal_strlit("#EXT-X-MAP:");
    reveal_strlit("#EXT-X-BYTERANGE:");
    reveal_strlit("#EXT-X-ENDLIST");
    let a = "#EXT-X-MEDIA-SEQUENCE:"@;
    if has_prefix(line, a) {
        assert(line.take(a.len() as int)[0] == a[0]);
        assert(line.take(a.len() as int)[7] == a[7]);
        assert(line.take(a.len() as int)[8] == a[8]);
    }
    let b = "#EXT-X-KEY:"@;
    if has_prefix(line, b) {
        assert(line.take(b.len() as int)[0] == b[0]);
        assert(line.take(b.len() as int)[7] == b[7]);
    }
    let c = "#EXT-X-MAP:"@;
    if has_prefix(line, c) {
        assert(line.take(c.len() as int)[0] == c[0]);
        assert(line.take(c.len() as int)[7] == c[7]);
        assert(line.take(c.len() as int)[8] == c[8]);
    }
    let d = "#EXT-X-BYTERANGE:"@;
    if has_prefix(line, d) {
        assert(line.take(d.len() as int)[0] == d[0]);
        assert(line.take(d.len() as int)[7] == d[7]);
    }
}

proof fn lemma_addresses(lines: Seq<Seq<char>>, a: int, b: int)
    requires
        0 <= a <= b <= lines.len(),
    ensures
        0 <= addresses(lines, a, b) <= b - a,
    decreases b - a,
{
    if a < b {
        lemma_addresses(lines, a, b - 1);
    }
}

proof fn lemma_last_tag(lines: Seq<Seq<char>>, p: int, tag: Seq<char>)
    requires
        0 <= p <= lines.len(),
    ensures
        -1 <= last_tag(lines, p, tag) < p,
    decreases p,
{
    if p > 0 {
        lemma_last_tag(lines, p - 1, tag);
    }
}

/// A key for the segment of a media sequence number.
spec fn settled(key: PendingView, n: u64) -> KeyView {
    KeyView {
        url: key.url,
        iv: match key.iv {
            Some(iv) => iv,
            None => sequence_iv(n),
        },
    }
}

/// What is known after `p` lines.
spec fn known(lines: Seq<Seq<char>>, p: int, base: Seq<char>, st: MediaView) -> bool {
    let k = last_tag(lines, p, "#EXT-X-KEY:"@);
    let m = last_tag(lines, p, "#EXT-X-MAP:"@);
    let b = last_tag(lines, p, "#EXT-X-BYTERANGE:"@);
    &&& st.segments.len() == addresses(lines, 0, p)
    &&& st.sequence == sequence_at(lines, p)
    &&& (k < 0 ==> st.key is None)
    &&& (k >= 0 ==> match st.key {
        None => clears_key(lines[k]),
        Some(key) => forall|n: u64| gives_key(lines[k], base, n, #[trigger] settled(key, n)),
    })
    &&& (m < 0 ==> st.init is None)
    &&& (m >= 0 ==> st.init is Some && gives_init(lines[m], base, st.init->0))
    &&& (b < 0 || addresses(lines, b, p) > 0 ==> st.next_range is None)
    &&& (b >= 0 && addresses(lines, b, p) == 0 ==> {
        let r = byte_range(tag_value(lines[b], "#EXT-X-BYTERANGE:"@));
        &&& r is Some
        &&& st.next_range == Some(
            ((r->0).0, if (r->0).1 is Some { (r->0).1->0 } else { u64::MAX }),
        )
    })
    &&& (last_ranged(st.segments) < 0 ==> st.last_end is None)
    &&& (last_ranged(st.segments) >= 0 ==> {
        let s = st.segments[last_ranged(st.segments)];
        &&& st.last_end is Some
        &&& (st.last_end->0).0 == s.url
        &&& (st.last_end->0).1 == ((s.range->0).0 + (s.range->0).1) % 0x1_0000_0000_0000_0000
    })
    &&& (st.endlist <==> exists|i: int| 0 <= i < p && trimmed(#[trigger] lines[i]) == "#EXT-X-ENDLIST"@)
}

/// Whether a map line gives this initialisation part.
pub open spec fn gives_init(line: Seq<char>, base: Seq<char>, init: SegmentView) -> bool {
    let attrs = attributes(tag_value(line, "#EXT-X-MAP:"@));
    &&& attr_value(attrs, "URI"@) is Some
    &&& resolved(base, attr_value(attrs, "URI"@)->0) == Some(init.url)
    &&& init.key is None
    &&& match attr_value(attrs, "BYTERANGE"@) {
        None => init.range is None && init.size is None,
        Some(v) => match byte_range(v) {
            None => false,
            Some(r) => {
                &&& init.size == Some(r.0)
                &&& init.range == Some((if r.1 is Some { r.1->0 } else { 0 }, r.0))
            },
        },
    }
}

proof fn lemma_wrap(a: int, b: int)
    requires
        0 <= a,
        0 <= b < 0x1_0000_0000_0000_0000,
        b == a % 0x1_0000_0000_0000_0000,
    ensures
        wrap_sum(b as u64, 1) == (a + 1) % 0x1_0000_0000_0000_0000,
{
    let m: int = 0x1_0000_0000_0000_0000;
    if b + 1 == m {
        assert((a + 1) % m == 0) by (nonlinear_arith)
            requires
                a % m == m - 1,
                m == 0x1_0000_0000_0000_0000,
        ;
    } else {
        assert((a + 1) % m == b + 1) by (nonlinear_arith)
            requires
                a % m == b,
                b + 1 < m,
                m == 0x1_0000_0000_0000_0000,
        ;
    }
}

proof fn lemma_known_tags(lines: Seq<Seq<char>>, p: int, base: Seq<char>, st: MediaView, after: MediaView)
    requires
        0 < p <= lines.len(),
        known(lines, p - 1, base, st),
        media_line(st, lines[p - 1], base) == Ok::<MediaView, Seq<char>>(after),
        !is_address(lines[p - 1]),
    ensures
        known(lines, p, base, after),
{
    let raw = lines[p - 1];
    let line = trimmed(raw);
    let e = "#EXT-X-ENDLIST"@;
    lemma_tags(line);
    lemma_last_tag(lines, p - 1, "#EXT-X-KEY:"@);
    lemma_last_tag(lines, p - 1, "#EXT-X-MAP:"@);
    lemma_last_tag(lines, p - 1, "#EXT-X-BYTERANGE:"@);
    lemma_last_tag(lines, p - 1, "#EXT-X-MEDIA-SEQUENCE:"@);
    lemma_addresses(lines, 0, p - 1);
    lemma_number_range(trimmed(tag_value(raw, "#EXT-X-MEDIA-SEQUENCE:"@)));
    assert(addresses(lines, p - 1, p) == 0) by {
        reveal_with_fuel(addresses, 2);
    }
    assert(has_tag(raw, "#EXT-X-BYTERANGE:"@) ==> last_tag(lines, p, "#EXT-X-BYTERANGE:"@) == p - 1);
    assert(behind(line, "#EXT-X-BYTERANGE:"@) == tag_value(raw, "#EXT-X-BYTERANGE:"@));
    assert(behind(line, "#EXT-X-KEY:"@) == tag_value(raw, "#EXT-X-KEY:"@));
    assert(behind(line, "#EXT-X-MAP:"@) == tag_value(raw, "#EXT-X-MAP:"@));
    if line == e {
        assert(trimmed(lines[p - 1]) == e);
    }
    reveal_strlit("NONE");
    reveal_strlit("AES-128");
    assert("NONE"@.len() != "AES-128"@.len());
    assert(uppered(trimmed("NONE"@)) =~= "NONE"@) by {
        reveal_with_fuel(crate::text::trimmed_start, 2);
        reveal_with_fuel(crate::text::trimmed_end, 2);
        assert(uppered("NONE"@) =~= "NONE"@);
    }
}

proof fn lemma_known_address(
    lines: Seq<Seq<char>>,
    p: int,
    base: Seq<char>,
    st: MediaView,
    after: MediaView,
)
    requires
        0 < p <= lines.len(),
        known(lines, p - 1, base, st),
        media_line(st, lines[p - 1], base) == Ok::<MediaView, Seq<char>>(after),
        is_address(lines[p - 1]),
    ensures
        known(lines, p, base, after),
        resolved(base, trimmed(lines[p - 1])) is Some,
        after == uri_line(st, resolved(base, trimmed(lines[p - 1]))->0),
{
    let raw = lines[p - 1];
    let line = trimmed(raw);
    lemma_tags(line);
    lemma_last_tag(lines, p - 1, "#EXT-X-KEY:"@);
    lemma_last_tag(lines, p - 1, "#EXT-X-MAP:"@);
    lemma_last_tag(lines, p - 1, "#EXT-X-BYTERANGE:"@);
    lemma_last_tag(lines, p - 1, "#EXT-X-MEDIA-SEQUENCE:"@);
    lemma_addresses(lines, 0, p - 1);
    let b = last_tag(lines, p, "#EXT-X-BYTERANGE:"@);
    assert(b == last_tag(lines, p - 1, "#EXT-X-BYTERANGE:"@));
    if b >= 0 {
        lemma_addresses(lines, b, p - 1);
        assert(addresses(lines, b, p) > 0);
    }
    let q = last_tag(lines, p, "#EXT-X-MEDIA-SEQUENCE:"@);
    assert(q == last_tag(lines, p - 1, "#EXT-X-MEDIA-SEQUENCE:"@));
    if q >= 0 {
        lemma_addresses(lines, q, p - 1);
        let n = number(trimmed(tag_value(lines[q], "#EXT-X-MEDIA-SEQUENCE:"@)));
        lemma_number_range(trimmed(tag_value(lines[q], "#EXT-X-MEDIA-SEQUENCE:"@)));
        lemma_wrap(
            (if n is Some { n->0 } else { 0 }) + addresses(lines, q, p - 1),
            st.sequence as int,
        );
    } else {
        lemma_wrap(addresses(lines, 0, p - 1), st.sequence as int);
    }
    let url = resolved(base, line)->0;
    assert(after == uri_line(st, url));
    assert(after.segments.drop_last() =~= st.segments);
    let s = after.segments.last();
    if s.range is Some {
        assert(last_ranged(after.segments) == after.segments.len() - 1);
    } else {
        assert(last_ranged(after.segments) == last_ranged(st.segments));
        lemma_last_ranged(st.segments);
    }
}

proof fn lemma_last_ranged(segments: Seq<SegmentView>)
    ensures
        -1 <= last_ranged(segments) < segments.len(),
        last_ranged(segments) >= 0 ==> segments[last_ranged(segments)].range is Some,
    decreases segments.len(),
{
    if segments.len() > 0 && segments.last().range is None {
        lemma_last_ranged(segments.drop_last());
    }
}

proof fn lemma_known(lines: Seq<Seq<char>>, p: int, base: Seq<char>)
    requires
        0 <= p <= lines.len(),
        media_scan(lines.take(p), base) is Ok,
    ensures
        known(lines, p, base, media_scan(lines.take(p), base)->Ok_0),
    decreases p,
{
    let st = media_scan(lines.take(p), base)->Ok_0;
    if p > 0 {
        assert(lines.take(p).drop_last() =~= lines.take(p - 1));
        assert(lines.take(p).last() == lines[p - 1]);
        lemma_known(lines, p - 1, base);
        let before = media_scan(lines.take(p - 1), base)->Ok_0;
        if is_address(lines[p - 1]) {
            lemma_known_address(lines, p, base, before, st);
        } else {
            lemma_known_tags(lines, p, base, before, st);
        }
    }
}

proof fn lemma_segments_stay(lines: Seq<Seq<char>>, p: int, base: Seq<char>)
    requires
        0 <= p <= lines.len(),
        media_scan(lines, base) is Ok,
    ensures
        media_scan(lines.take(p), base) is Ok,
        ({
            let part = media_scan(lines.take(p), base)->Ok_0.segments;
            let all = media_scan(lines, base)->Ok_0.segments;
            part.len() <= all.len() && part =~= all.take(part.len() as int)
        }),
    decreases lines.len() - p,
{
    if p == lines.len() {
        assert(lines.take(p) =~= lines);
    } else {
        lemma_segments_stay(lines, p + 1, base);
        assert(lines.take(p + 1).drop_last() =~= lines.take(p));
    }
}

/// Each address line is one segment, in order, and has what the lines before it say: the
/// key of the last key line before it, whatever segments stand between, and none if that
/// line asks for none or there is no such line; the byte range of the range line between
/// it and the address before it, and the whole of its address if there is no such line.
pub proof fn law_segment_has_its_key_and_range(text: Seq<char>, base: Seq<char>, p: int)
    requires
        media_of(text, base) is Ok,
        0 <= p < line_parts(cleaned(text)).len(),
        is_address(line_parts(cleaned(text))[p]),
    ensures
        ({
            let lines = line_parts(cleaned(text));
            let i = addresses(lines, 0, p);
            let all = media_of(text, base)->Ok_0.segments;
            let s = all[i];
            let k = last_tag(lines, p, "#EXT-X-KEY:"@);
            let b = last_tag(lines, p, "#EXT-X-BYTERANGE:"@);
            &&& 0 <= i < all.len()
            &&& resolved(base, trimmed(lines[p])) == Some(s.url)
            &&& (k < 0 ==> s.key is None)
            &&& (k >= 0 ==> match s.key {
                None => clears_key(lines[k]),
                Some(key) => gives_key(lines[k], base, sequence_at(lines, p) as u64, key),
            })
            &&& (b < 0 || addresses(lines, b, p) > 0 ==> s.range is None && s.size is None)
            &&& (b >= 0 && addresses(lines, b, p) == 0 ==> {
                let r = byte_range(tag_value(lines[b], "#EXT-X-BYTERANGE:"@));
                &&& r is Some && s.range is Some
                &&& s.size == Some((r->0).0)
                &&& (s.range->0).1 == (r->0).0
                &&& ((r->0).1 is Some && (r->0).1->0 != u64::MAX ==> (s.range->0).0 == (r->0).1->0)
                &&& ((r->0).1 is None ==> (s.range->0).0 == goes_on(all.take(i), s.url))
            })
        }),
{
    let lines = line_parts(cleaned(text));
    let all = media_of(text, base)->Ok_0.segments;
    lemma_segments_stay(lines, p, base);
    lemma_segments_stay(lines, p + 1, base);
    lemma_known(lines, p, base);
    assert(lines.take(p + 1).drop_last() =~= lines.take(p));
    assert(lines.take(p + 1).last() == lines[p]);
    let st = media_scan(lines.take(p), base)->Ok_0;
    let after = media_scan(lines.take(p + 1), base)->Ok_0;
    lemma_known_address(lines, p + 1, base, st, after);
    let i = addresses(lines, 0, p);
    assert(after.segments.len() == i + 1);
    assert(after.segments[i] == all.take(after.segments.len() as int)[i]);
    assert(all.take(i) =~= st.segments);
    lemma_last_ranged(st.segments);
    let s = all[i];
    if s.key is Some {
        let k = last_tag(lines, p, "#EXT-X-KEY:"@);
        assert(gives_key(lines[k], base, st.sequence, settled(st.key->0, st.sequence)));
    }
}

/// There are as many segments as address lines; the initialisation part is that of the
/// last map line; and the playlist has ended if and only if some line says so.
pub proof fn law_playlist_as_a_whole(text: Seq<char>, base: Seq<char>)
    requires
        media_of(text, base) is Ok,
    ensures
        ({
            let lines = line_parts(cleaned(text));
            let st = media_of(text, base)->Ok_0;
            let m = last_tag(lines, lines.len() as int, "#EXT-X-MAP:"@);
            &&& st.segments.len() == addresses(lines, 0, lines.len() as int)
            &&& (m < 0 ==> st.init is None)
            &&& (m >= 0 ==> st.init is Some && gives_init(lines[m], base, st.init->0))
            &&& (st.endlist <==> exists|i: int|
                0 <= i < lines.len() && trimmed(#[trigger] lines[i]) == "#EXT-X-ENDLIST"@)
        }),
{
    let lines = line_parts(cleaned(text));
    assert(lines.take(lines.len() as int) =~= lines);
    lemma_known(lines, lines.len() as int, base);
}

proof fn lemma_only_tag(lines: Seq<Seq<char>>, p: int, tag: Seq<char>, k: int)
    requires
        0 <= k < p <= lines.len(),
        has_tag(lines[k], tag),
        forall|j: int| k < j < p ==> !has_tag(#[trigger] lines[j], tag),
    ensures
        last_tag(lines, p, tag) == k,
    decreases p,
{
    if k < p - 1 {
        assert(!has_tag(lines[p - 1], tag));
        lemma_only_tag(lines, p - 1, tag, k);
    }
}

proof fn lemma_no_address(lines: Seq<Seq<char>>, a: int, b: int)
    requires
        0 <= a <= b <= lines.len(),
        forall|j: int| a <= j < b ==> !is_address(#[trigger] lines[j]),
    ensures
        addresses(lines, a, b) == 0,
    decreases b - a,
{
    if a < b {
        assert(!is_address(lines[b - 1]));
        lemma_no_address(lines, a, b - 1);
    }
}

proof fn lemma_address_of(lines: Seq<Seq<char>>, n: int, i: int) -> (p: int)
    requires
        0 <= i < addresses(lines, 0, n),
        0 <= n <= lines.len(),
    ensures
        0 <= p < n,
        is_address(lines[p]),
        addresses(lines, 0, p) == i,
    decreases n,
{
    if is_address(lines[n - 1]) && i == addresses(lines, 0, n - 1) {
        n - 1
    } else {
        lemma_address_of(lines, n - 1, i)
    }
}

/// A playlist whose only key line stands before its first segment and names a key is
/// encrypted with that key throughout: every segment has the address of that key.
pub proof fn law_one_key_is_for_all(text: Seq<char>, base: Seq<char>, k: int, i: int)
    requires
        media_of(text, base) is Ok,
        0 <= k < line_parts(cleaned(text)).len(),
        has_tag(line_parts(cleaned(text))[k], "#EXT-X-KEY:"@),
        !clears_key(line_parts(cleaned(text))[k]),
        forall|j: int|
            0 <= j < line_parts(cleaned(text)).len() && j != k ==> !has_tag(
                #[trigger] line_parts(cleaned(text))[j],
                "#EXT-X-KEY:"@,
            ),
        forall|j: int| 0 <= j < k ==> !is_address(#[trigger] line_parts(cleaned(text))[j]),
        0 <= i < media_of(text, base)->Ok_0.segments.len(),
    ensures
        ({
            let attrs = attributes(
                tag_value(line_parts(cleaned(text))[k], "#EXT-X-KEY:"@),
            );
            let s = media_of(text, base)->Ok_0.segments[i];
            &&& s.key is Some
            &&& attr_value(attrs, "URI"@) is Some
            &&& resolved(base, attr_value(attrs, "URI"@)->0) == Some(s.key->0.url)
        }),
{
    let lines = line_parts(cleaned(text));
    law_playlist_as_a_whole(text, base);
    let p = lemma_address_of(lines, lines.len() as int, i);
    lemma_tags(trimmed(lines[k]));
    assert(p > k) by {
        if p < k {
            assert(!is_address(lines[p]));
        }
    }
    lemma_only_tag(lines, p, "#EXT-X-KEY:"@, k);
    law_segment_has_its_key_and_range(text, base, p);
}

/// Whether a line can be read: an address that resolves, a key line that asks for no
/// encryption or names a key, a map line that names a part, a range line that gives a
/// range, or any other line.
pub open spec fn is_fair(line: Seq<char>, base: Seq<char>) -> bool {
    &&& is_address(line) ==> resolved(base, trimmed(line)) is Some
    &&& has_tag(line, "#EXT-X-KEY:"@) ==> clears_key(line) || exists|key: KeyView|
        gives_key(line, base, 0, key)
    &&& has_tag(line, "#EXT-X-MAP:"@) ==> exists|init: SegmentView| gives_init(line, base, init)
    &&& has_tag(line, "#EXT-X-BYTERANGE:"@) ==> byte_range(tag_value(line, "#EXT-X-BYTERANGE:"@)) is Some
}

proof fn lemma_fair_line(st: MediaView, line: Seq<char>, base: Seq<char>)
    ensures
        media_line(st, line, base) is Ok <==> is_fair(line, base),
{
    lemma_tags(trimmed(line));
    reveal_strlit("NONE");
    reveal_strlit("AES-128");
    assert("NONE"@.len() != "AES-128"@.len());
    assert(uppered(trimmed("NONE"@)) =~= "NONE"@) by {
        reveal_with_fuel(crate::text::trimmed_start, 2);
        reveal_with_fuel(crate::text::trimmed_end, 2);
        assert(uppered("NONE"@) =~= "NONE"@);
    }
    let t = trimmed(line);
    assert(behind(t, "#EXT-X-BYTERANGE:"@) == tag_value(line, "#EXT-X-BYTERANGE:"@));
    assert(behind(t, "#EXT-X-KEY:"@) == tag_value(line, "#EXT-X-KEY:"@));
    assert(behind(t, "#EXT-X-MAP:"@) == tag_value(line, "#EXT-X-MAP:"@));
    if has_tag(line, "#EXT-X-KEY:"@) {
        match key_line(attributes(tag_value(line, "#EXT-X-KEY:"@)), base) {
            Ok(Some(k)) => {
                assert(gives_key(line, base, 0, settled(k, 0)));
            },
            Ok(None) => {
                assert(clears_key(line));
            },
            Err(_) => {
                assert forall|key: KeyView| !gives_key(line, base, 0, key) by {}
                assert(!clears_key(line));
            },
        }
    }
    if has_tag(line, "#EXT-X-MAP:"@) {
        match map_line(attributes(tag_value(line, "#EXT-X-MAP:"@)), base) {
            Ok(m) => {
                assert(gives_init(line, base, m));
            },
            Err(_) => {
                assert forall|m: SegmentView| !gives_init(line, base, m) by {}
            },
        }
    }
}

/// A playlist is read if and only if each of its lines can be.
pub proof fn law_playlist_is_read_if_its_lines_are(text: Seq<char>, base: Seq<char>)
    ensures
        media_of(text, base) is Ok <==> forall|i: int|
            0 <= i < line_parts(cleaned(text)).len() ==> is_fair(
                #[trigger] line_parts(cleaned(text))[i],
                base,
            ),
{
    lemma_fair(line_parts(cleaned(text)), base);
}

proof fn lemma_fair(lines: Seq<Seq<char>>, base: Seq<char>)
    ensures
        media_scan(lines, base) is Ok <==> forall|i: int|
            0 <= i < lines.len() ==> is_fair(#[trigger] lines[i], base),
    decreases lines.len(),
{
    if lines.len() > 0 {
        let rest = lines.drop_last();
        lemma_fair(rest, base);
        assert forall|i: int| 0 <= i < rest.len() implies rest[i] == #[trigger] lines[i] by {}
        if media_scan(rest, base) is Ok {
            lemma_fair_line(media_scan(rest, base)->Ok_0, lines.last(), base);
            assert(lines.last() == lines[lines.len() - 1]);
            if media_scan(lines, base) is Ok {
                assert forall|i: int| 0 <= i < lines.len() implies is_fair(
                    #[trigger] lines[i],
                    base,
                ) by {
                    if i < rest.len() {
                        assert(is_fair(rest[i], base));
                    }
                }
            }
        } else {
            let i = choose|i: int| 0 <= i < rest.len() && !is_fair(#[trigger] rest[i], base);
            assert(!is_fair(lines[i], base));
        }
    }
}

} // verus!

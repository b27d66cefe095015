//! HLS playlists: the text format.

use vstd::prelude::*;

use crate::geo::{lemma_spelled_more, spelled};
use crate::outside::{join_url, url_joined};
use crate::text::{
    chars_of, cut_at, decimal, has_prefix, law_cut_at_the_first, law_decimal_round_trip,
    law_trim_takes_only_white_space, law_trimmed_stays, lemma_decimal, number, parse_u64, part, same_text, split, split_on,
    split_once, starts_with, string_of, strip_end, strip_prefix, strip_start,
    stripped_end, stripped_start, texts, to_upper, trim, trim_start, trimmed, trimmed_start,
    uppered, white_space,
};

verus! {

// ---------------------------------------------------------------------------
// Attribute lists
// ---------------------------------------------------------------------------

/// State after some characters of an attribute list: the finished parts, the part in
/// work, and whether a quote is open.
pub open spec fn attr_scan(s: Seq<char>) -> (Seq<Seq<char>>, Seq<char>, bool)
    decreases s.len(),
{
    if s.len() == 0 {
        (Seq::empty(), Seq::empty(), false)
    } else {
        let st = attr_scan(s.drop_last());
        let c = s.last();
        if c == '"' {
            (st.0, st.1.push(c), !st.2)
        } else if c == ',' && !st.2 {
            (st.0.push(st.1), Seq::empty(), st.2)
        } else {
            (st.0, st.1.push(c), st.2)
        }
    }
}

/// The parts of an attribute list: cut at the commas that are not quoted, without a
/// blank last part.
pub open spec fn attr_parts(s: Seq<char>) -> Seq<Seq<char>> {
    let st = attr_scan(s);
    if trimmed(st.1).len() > 0 { st.0.push(st.1) } else { st.0 }
}

/// Name and value of one part: the name in capitals, the value without its quotes.
pub open spec fn attr_pair(p: Seq<char>) -> Option<(Seq<char>, Seq<char>)> {
    match cut_at(p, '=') {
        None => None,
        Some(kv) => {
            let name = uppered(trimmed(kv.0));
            if name.len() == 0 {
                None
            } else {
                Some((name, stripped_end(stripped_start(trimmed(kv.1), '"'), '"')))
            }
        },
    }
}

/// The pairs of the parts that are pairs.
pub open spec fn attr_pairs(parts: Seq<Seq<char>>) -> Seq<(Seq<char>, Seq<char>)>
    decreases parts.len(),
{
    if parts.len() == 0 {
        Seq::empty()
    } else {
        let rest = attr_pairs(parts.drop_last());
        match attr_pair(parts.last()) {
            Some(p) => rest.push(p),
            None => rest,
        }
    }
}

/// The attributes of a list.
pub open spec fn attributes(s: Seq<char>) -> Seq<(Seq<char>, Seq<char>)> {
    attr_pairs(attr_parts(s))
}

/// The value of the first attribute of this name.
pub open spec fn attr_value(attrs: Seq<(Seq<char>, Seq<char>)>, key: Seq<char>) -> Option<Seq<char>>
    decreases attrs.len(),
{
    if attrs.len() == 0 {
        None
    } else if attrs[0].0 == key {
        Some(attrs[0].1)
    } else {
        attr_value(attrs.skip(1), key)
    }
}

/// The views of some pairs of strings.
pub open spec fn pair_texts(v: Seq<(String, String)>) -> Seq<(Seq<char>, Seq<char>)> {
    Seq::new(v.len(), |i: int| (v[i].0@, v[i].1@))
}

/// The views of some strings.
pub open spec fn string_texts(v: Seq<String>) -> Seq<Seq<char>> {
    Seq::new(v.len(), |i: int| v[i]@)
}

fn split_attr_chars(v: &Vec<char>) -> (r: Vec<Vec<char>>)
    ensures
        texts(r@) == attr_parts(v@),
{
    let mut parts: Vec<Vec<char>> = Vec::new();
    let mut cur: Vec<char> = Vec::new();
    let mut quoted: bool = false;
    let mut i: usize = 0;
    assert(v@.take(0) =~= Seq::<char>::empty());
    assert(texts(parts@) =~= Seq::<Seq<char>>::empty());
    while i < v.len()
        invariant
            i <= v@.len(),
            attr_scan(v@.take(i as int)) == (texts(parts@), cur@, quoted),
        decreases v@.len() - i,
    {
        let c: char = v[i];
        proof {
            assert(v@.take(i + 1).drop_last() =~= v@.take(i as int));
            assert(v@.take(i + 1).last() == c);
        }
        if c == '"' {
            quoted = !quoted;
            cur.push(c);
        } else if c == ',' && !quoted {
            let ghost done = texts(parts@);
            let ghost last = cur@;
            parts.push(cur);
            cur = Vec::new();
            assert(texts(parts@) =~= done.push(last));
            assert(cur@ =~= Seq::<char>::empty());
        } else {
            cur.push(c);
        }
        i = i + 1;
    }
    assert(v@.take(i as int) =~= v@);
    let rest = trim(&cur);
    if rest.len() > 0 {
        let ghost done = texts(parts@);
        let ghost last = cur@;
        parts.push(cur);
        assert(texts(parts@) =~= done.push(last));
    }
    parts
}

/// Cuts an attribute list at the commas that are not quoted.
pub fn split_attributes(s: &str) -> (r: Vec<String>)
    ensures
        string_texts(r@) == attr_parts(s@),
{
    let v = chars_of(s);
    let parts = split_attr_chars(&v);
    let mut out: Vec<String> = Vec::new();
    let mut i: usize = 0;
    while i < parts.len()
        invariant
            i <= parts@.len(),
            out@.len() == i,
            forall|j: int| 0 <= j < i ==> (#[trigger] out@[j])@ == parts@[j]@,
        decreases parts@.len() - i,
    {
        out.push(string_of(&parts[i]));
        i = i + 1;
    }
    assert(string_texts(out@) =~= texts(parts@));
    out
}

fn pair_of(p: &Vec<char>) -> (r: Option<(String, String)>)
    ensures
        match r {
            Some(kv) => attr_pair(p@) == Some((kv.0@, kv.1@)),
            None => attr_pair(p@) is None,
        },
{
    match split_once(p, '=') {
        None => None,
        Some(kv) => {
            let name = trim(&kv.0);
            let name = to_upper(&name);
            if name.len() == 0 {
                return None;
            }
            let value = trim(&kv.1);
            let value = strip_start(&value, '"');
            let value = strip_end(&value, '"');
            Some((string_of(&name), string_of(&value)))
        },
    }
}

pub(crate) fn attributes_of(v: &Vec<char>) -> (r: Vec<(String, String)>)
    ensures
        pair_texts(r@) == attributes(v@),
{
    let parts = split_attr_chars(v);
    let ghost all = texts(parts@);
    let mut out: Vec<(String, String)> = Vec::new();
    let mut i: usize = 0;
    assert(all.take(0) =~= Seq::<Seq<char>>::empty());
    assert(pair_texts(out@) =~= Seq::<(Seq<char>, Seq<char>)>::empty());
    while i < parts.len()
        invariant
            i <= parts@.len(),
            all == texts(parts@),
            pair_texts(out@) == attr_pairs(all.take(i as int)),
        decreases parts@.len() - i,
    {
        proof {
            assert(all.take(i + 1).drop_last() =~= all.take(i as int));
            assert(all.take(i + 1).last() == parts@[i as int]@);
        }
        match pair_of(&parts[i]) {
            Some(kv) => {
                let ghost before = pair_texts(out@);
                let ghost view = (kv.0@, kv.1@);
                out.push(kv);
                assert(pair_texts(out@) =~= before.push(view));
            },
            None => {},
        }
        i = i + 1;
    }
    assert(all.take(i as int) =~= all);
    out
}

/// Reads the attributes of a list.
pub fn parse_attributes(s: &str) -> (r: Vec<(String, String)>)
    ensures
        pair_texts(r@) == attributes(s@),
{
    let v = chars_of(s);
    attributes_of(&v)
}

/// The value of the first attribute of this name.
pub fn attr<'a>(attrs: &'a Vec<(String, String)>, key: &str) -> (r: Option<&'a String>)
    ensures
        match r {
            Some(v) => attr_value(pair_texts(attrs@), key@) == Some(v@),
            None => attr_value(pair_texts(attrs@), key@) is None,
        },
{
    let ghost all = pair_texts(attrs@);
    let k = chars_of(key);
    let mut i: usize = 0;
    assert(all.skip(0) =~= all);
    while i < attrs.len()
        invariant
            i <= attrs@.len(),
            all == pair_texts(attrs@),
            k@ == key@,
            attr_value(all, key@) == attr_value(all.skip(i as int), key@),
        decreases attrs@.len() - i,
    {
        proof {
            assert(all.skip(i as int)[0] == all[i as int]);
            assert(all.skip(i as int).skip(1) =~= all.skip(i + 1));
        }
        if same_text(&k, attrs[i].0.as_str()) {
            return Some(&attrs[i].1);
        }
        i = i + 1;
    }
    None
}

// ---------------------------------------------------------------------------
// Kind of a text
// ---------------------------------------------------------------------------

/// A text without byte order marks and outer white space.
pub open spec fn cleaned(s: Seq<char>) -> Seq<char> {
    trimmed(stripped_start(s, '\u{feff}'))
}

/// The lines of a text, each with its line end cut off or turned into white space.
pub open spec fn line_parts(s: Seq<char>) -> Seq<Seq<char>> {
    split_on(s, '\n')
}

/// Removes byte order marks and outer white space.
pub fn clean_text(s: &str) -> (r: String)
    ensures
        r@ == cleaned(s@),
{
    let v = clean_chars(s);
    string_of(&v)
}

pub(crate) fn clean_chars(s: &str) -> (r: Vec<char>)
    ensures
        r@ == cleaned(s@),
{
    let v = chars_of(s);
    let v = strip_start(&v, '\u{feff}');
    trim(&v)
}

/// Whether a text is a playlist: it begins with the playlist mark.
pub open spec fn is_manifest(s: Seq<char>) -> bool {
    has_prefix(cleaned(s), "#EXTM3U"@)
}

/// Tests whether a text is a playlist.
pub fn looks_like_manifest(text: &str) -> (r: bool)
    ensures
        r == is_manifest(text@),
{
    let v = clean_chars(text);
    starts_with(&v, "#EXTM3U")
}

/// Whether a line declares a variant.
pub open spec fn declares_variant(line: Seq<char>) -> bool {
    has_prefix(trimmed_start(line), "#EXT-X-STREAM-INF"@)
}

/// Whether a playlist is a master playlist: some line declares a variant.
pub open spec fn is_master_text(s: Seq<char>) -> bool {
    exists|i: int|
        0 <= i < line_parts(cleaned(s)).len() && declares_variant(#[trigger] line_parts(cleaned(s))[i])
}

/// Tests whether a playlist is a master playlist.
pub fn is_master(text: &str) -> (r: bool)
    ensures
        r == is_master_text(text@),
{
    let v = clean_chars(text);
    let lines = split(&v, '\n');
    let ghost all = line_parts(cleaned(text@));
    let mut i: usize = 0;
    while i < lines.len()
        invariant
            i <= lines@.len(),
            texts(lines@) == all,
            all == line_parts(cleaned(text@)),
            forall|j: int| 0 <= j < i ==> !declares_variant(#[trigger] all[j]),
        decreases lines@.len() - i,
    {
        let l = trim_start(&lines[i]);
        assert(all[i as int] == lines@[i as int]@);
        if starts_with(&l, "#EXT-X-STREAM-INF") {
            assert(declares_variant(all[i as int]));
            return true;
        }
        i = i + 1;
    }
    false
}

// ---------------------------------------------------------------------------
// Addresses
// ---------------------------------------------------------------------------

/// The address that a reference in a playlist means.
pub open spec fn resolved(base: Seq<char>, uri: Seq<char>) -> Option<Seq<char>> {
    let u = trimmed(uri);
    if u.len() == 0 {
        None
    } else {
        match url_joined(base, u) {
            Some(a) => Some(a),
            None => if has_prefix(u, "http"@) {
                Some(u)
            } else {
                None
            },
        }
    }
}

pub(crate) fn resolve_chars(base: &str, uri: &Vec<char>) -> (r: Option<String>)
    ensures
        match r {
            Some(u) => resolved(base@, uri@) == Some(u@),
            None => resolved(base@, uri@) is None,
        },
{
    let u = trim(uri);
    if u.len() == 0 {
        return None;
    }
    let text = string_of(&u);
    let joined = join_url(base, text.as_str());
    settle_reference(joined, text)
}

/// The address of a reference, given what joining it to the base gave: the joined
/// address, else the reference itself if it is an HTTP address.
pub fn settle_reference(joined: Option<String>, reference: String) -> (r: Option<String>)
    ensures
        match joined {
            Some(a) => r == Some(a),
            None => r == if has_prefix(reference@, "http"@) { Some(reference) } else { None },
        },
{
    match joined {
        Some(a) => Some(a),
        None => {
            let v = chars_of(reference.as_str());
            if starts_with(&v, "http") {
                Some(reference)
            } else {
                None
            }
        },
    }
}

/// Resolves a reference against the address of its playlist.
pub fn resolve_url(base: &str, uri: &str) -> (r: Option<String>)
    ensures
        match r {
            Some(u) => resolved(base@, uri@) == Some(u@),
            None => resolved(base@, uri@) is None,
        },
{
    let v = chars_of(uri);
    resolve_chars(base, &v)
}

// ---------------------------------------------------------------------------
// Variants
// ---------------------------------------------------------------------------

/// One variant of a master playlist.
pub struct Variant {
    pub url: String,
    pub bandwidth: u64,
    pub area: u64,
}

/// A variant as a value.
pub struct VariantView {
    pub url: Seq<char>,
    pub bandwidth: u64,
    pub area: u64,
}

impl Variant {
    pub open spec fn view(&self) -> VariantView {
        VariantView { url: self.url@, bandwidth: self.bandwidth, area: self.area }
    }
}

/// The values of some variants.
pub open spec fn variant_views(v: Seq<Variant>) -> Seq<VariantView> {
    Seq::new(v.len(), |i: int| v[i].view())
}

/// Product of two numbers, wrapped to 64 bits.
pub open spec fn wrap_mul(a: int, b: int) -> int {
    (a * b) % 0x1_0000_0000_0000_0000
}

/// The bandwidth of a variant, zero if it is not given.
pub open spec fn bandwidth_of(attrs: Seq<(Seq<char>, Seq<char>)>) -> int {
    match attr_value(attrs, "BANDWIDTH"@) {
        Some(v) => match number(trimmed(v)) {
            Some(n) => n,
            None => 0,
        },
        None => 0,
    }
}

/// Width times height of a variant, zero if it is not given.
pub open spec fn area_of(attrs: Seq<(Seq<char>, Seq<char>)>) -> int {
    match attr_value(attrs, "RESOLUTION"@) {
        None => 0,
        Some(v) => match cut_at(v, 'x') {
            None => 0,
            Some(wh) => match (number(trimmed(wh.0)), number(trimmed(wh.1))) {
                (Some(w), Some(h)) => wrap_mul(w, h),
                _ => 0,
            },
        },
    }
}

/// The variants found so far and the declaration that waits for its address.
pub struct VariantScan {
    pub found: Seq<VariantView>,
    pub pending: Option<(u64, u64)>,
}

/// The scan of a master playlist after one more line.
pub open spec fn variant_line(st: VariantScan, raw: Seq<char>, base: Seq<char>) -> VariantScan {
    let line = trimmed(raw);
    if line.len() == 0 {
        st
    } else if has_prefix(line, "#EXT-X-STREAM-INF:"@) {
        let attrs = attributes(line.skip("#EXT-X-STREAM-INF:"@.len() as int));
        VariantScan {
            found: st.found,
            pending: Some((bandwidth_of(attrs) as u64, area_of(attrs) as u64)),
        }
    } else if line[0] == '#' {
        st
    } else {
        match (st.pending, resolved(base, line)) {
            (None, _) => st,
            (Some(_), None) => VariantScan { found: st.found, pending: None },
            (Some(p), Some(u)) => VariantScan {
                found: st.found.push(VariantView { url: u, bandwidth: p.0, area: p.1 }),
                pending: None,
            },
        }
    }
}

/// The scan of a master playlist after some lines.
pub open spec fn variant_scan(lines: Seq<Seq<char>>, base: Seq<char>) -> VariantScan
    decreases lines.len(),
{
    if lines.len() == 0 {
        VariantScan { found: Seq::empty(), pending: None }
    } else {
        variant_line(variant_scan(lines.drop_last(), base), lines.last(), base)
    }
}

/// The variants of a master playlist.
pub open spec fn variants_of(text: Seq<char>, base: Seq<char>) -> Seq<VariantView> {
    variant_scan(line_parts(cleaned(text)), base).found
}

fn attr_number(attrs: &Vec<(String, String)>, key: &str) -> (r: u64)
    ensures
        r == (match attr_value(pair_texts(attrs@), key@) {
            Some(v) => match number(trimmed(v)) {
                Some(n) => n,
                None => 0,
            },
            None => 0,
        }),
{
    match attr(attrs, key) {
        None => 0,
        Some(v) => {
            let c = chars_of(v.as_str());
            let t = trim(&c);
            match parse_u64(&t) {
                Some(n) => n,
                None => 0,
            }
        },
    }
}

fn attr_area(attrs: &Vec<(String, String)>) -> (r: u64)
    ensures
        r == area_of(pair_texts(attrs@)),
{
    match attr(attrs, "RESOLUTION") {
        None => 0,
        Some(v) => {
            let c = chars_of(v.as_str());
            match split_once(&c, 'x') {
                None => 0,
                Some(wh) => {
                    let w = trim(&wh.0);
                    let h = trim(&wh.1);
                    match (parse_u64(&w), parse_u64(&h)) {
                        (Some(a), Some(b)) => wrapping_product(a, b),
                        _ => 0,
                    }
                },
            }
        },
    }
}

fn wrapping_product(a: u64, b: u64) -> (r: u64)
    ensures
        r == wrap_mul(a as int, b as int),
{
    proof {
        assert(a * b <= u64::MAX * u64::MAX) by (nonlinear_arith)
            requires
                0 <= a <= u64::MAX,
                0 <= b <= u64::MAX,
        ;
        assert(a * b >= 0) by (nonlinear_arith)
            requires
                0 <= a,
                0 <= b,
        ;
    }
    let p: u128 = a as u128 * b as u128;
    (p % 0x1_0000_0000_0000_0000) as u64
}

/// Reads the variants of a master playlist at the address `base`.
pub fn parse_variants(text: &str, base: &str) -> (r: Vec<Variant>)
    ensures
        variant_views(r@) == variants_of(text@, base@),
{
    let v = clean_chars(text);
    let lines = split(&v, '\n');
    let ghost all = line_parts(cleaned(text@));
    let mut out: Vec<Variant> = Vec::new();
    let mut pending: Option<(u64, u64)> = None;
    let mut i: usize = 0;
    assert(all.take(0) =~= Seq::<Seq<char>>::empty());
    assert(variant_views(out@) =~= Seq::<VariantView>::empty());
    while i < lines.len()
        invariant
            i <= lines@.len(),
            texts(lines@) == all,
            variant_scan(all.take(i as int), base@) == (VariantScan {
                found: variant_views(out@),
                pending,
            }),
        decreases lines@.len() - i,
    {
        proof {
            assert(all.take(i + 1).drop_last() =~= all.take(i as int));
            assert(all[i as int] == lines@[i as int]@);
            assert(all.take(i + 1).last() == lines@[i as int]@);
        }
        let line = trim(&lines[i]);
        if line.len() > 0 {
            match strip_prefix(&line, "#EXT-X-STREAM-INF:") {
                Some(rest) => {
                    let attrs = attributes_of(&rest);
                    let bandwidth: u64 = attr_number(&attrs, "BANDWIDTH");
                    let area: u64 = attr_area(&attrs);
                    pending = Some((bandwidth, area));
                },
                None => {
                    if line[0] != '#' {
                        if let Some(p) = pending {
                            pending = None;
                            if let Some(url) = resolve_chars(base, &line) {
                                let ghost before = variant_views(out@);
                                let one = Variant { url, bandwidth: p.0, area: p.1 };
                                let ghost shown = one.view();
                                out.push(one);
                                assert(variant_views(out@) =~= before.push(shown));
                            }
                        }
                    }
                },
            }
        }
        i = i + 1;
    }
    assert(all.take(i as int) =~= all);
    out
}

/// Whether variant `a` ranks at least as high as `b`.
pub open spec fn ranks_over(a: VariantView, b: VariantView, prefer_worst: bool) -> bool {
    if prefer_worst {
        a.bandwidth < b.bandwidth || (a.bandwidth == b.bandwidth && a.area <= b.area)
    } else {
        a.bandwidth > b.bandwidth || (a.bandwidth == b.bandwidth && a.area >= b.area)
    }
}

/// Variant `i` is the last of those that no other one outranks.
pub open spec fn is_choice(v: Seq<VariantView>, prefer_worst: bool, i: int) -> bool {
    &&& 0 <= i < v.len()
    &&& forall|j: int| 0 <= j < v.len() ==> ranks_over(v[i], #[trigger] v[j], prefer_worst)
    &&& forall|j: int| i < j < v.len() ==> !ranks_over(#[trigger] v[j], v[i], prefer_worst)
}

/// Chooses the variant with the highest bandwidth, then the largest picture; with
/// `prefer_worst` the lowest and smallest. Of equals the last one is taken.
pub fn choose_variant(variants: &Vec<Variant>, prefer_worst: bool) -> (r: Option<usize>)
    ensures
        match r {
            Some(i) => is_choice(variant_views(variants@), prefer_worst, i as int),
            None => variants@.len() == 0,
        },
{
    if variants.len() == 0 {
        return None;
    }
    let ghost all = variant_views(variants@);
    let mut best: usize = 0;
    let mut i: usize = 1;
    while i < variants.len()
        invariant
            1 <= i <= variants@.len(),
            best < i,
            all == variant_views(variants@),
            forall|j: int| 0 <= j < i ==> ranks_over(all[best as int], #[trigger] all[j], prefer_worst),
            forall|j: int| best < j < i ==> !ranks_over(#[trigger] all[j], all[best as int], prefer_worst),
        decreases variants@.len() - i,
    {
        let a = &variants[i];
        let b = &variants[best];
        let over: bool = if prefer_worst {
            a.bandwidth < b.bandwidth || (a.bandwidth == b.bandwidth && a.area <= b.area)
        } else {
            a.bandwidth > b.bandwidth || (a.bandwidth == b.bandwidth && a.area >= b.area)
        };
        assert(over == ranks_over(all[i as int], all[best as int], prefer_worst));
        if over {
            best = i;
        }
        i = i + 1;
    }
    Some(best)
}

// ---------------------------------------------------------------------------
// Values in media playlists
// ---------------------------------------------------------------------------

/// Length and optional offset of a byte range.
pub open spec fn byte_range(s: Seq<char>) -> Option<(u64, Option<u64>)> {
    let v = trimmed(s);
    match cut_at(v, '@') {
        Some(p) => match (number(trimmed(p.0)), number(trimmed(p.1))) {
            (Some(len), Some(off)) => Some((len as u64, Some(off as u64))),
            _ => None,
        },
        None => match number(v) {
            Some(len) => Some((len as u64, None)),
            None => None,
        },
    }
}

/// Reads a byte range: a length, and an offset behind `@`.
pub fn parse_byterange(v: &str) -> (r: Option<(u64, Option<u64>)>)
    ensures
        r == byte_range(v@),
{
    let c = chars_of(v);
    byterange_chars(&c)
}

pub(crate) fn byterange_chars(c: &Vec<char>) -> (r: Option<(u64, Option<u64>)>)
    ensures
        r == byte_range(c@),
{
    let v = trim(c);
    match split_once(&v, '@') {
        Some(p) => {
            let a = trim(&p.0);
            let b = trim(&p.1);
            match parse_u64(&a) {
                None => None,
                Some(len) => match parse_u64(&b) {
                    None => None,
                    Some(off) => Some((len, Some(off))),
                },
            }
        },
        None => match parse_u64(&v) {
            Some(len) => Some((len, None)),
            None => None,
        },
    }
}

/// `s` without the two characters `a`, `b` as often as they stand at its start.
pub open spec fn unprefixed(s: Seq<char>, a: char, b: char) -> Seq<char>
    decreases s.len(),
{
    if s.len() >= 2 && s[0] == a && s[1] == b {
        unprefixed(s.skip(2), a, b)
    } else {
        s
    }
}

fn strip_pairs(v: &Vec<char>, a: char, b: char) -> (r: Vec<char>)
    ensures
        r@ == unprefixed(v@, a, b),
{
    let n: usize = v.len();
    let mut i: usize = 0;
    assert(v@.skip(0) =~= v@);
    while n - i >= 2 && v[i] == a && v[i + 1] == b
        invariant
            n == v@.len(),
            i <= n,
            unprefixed(v@, a, b) == unprefixed(v@.skip(i as int), a, b),
        decreases v@.len() - i,
    {
        proof {
            let t = v@.skip(i as int);
            assert(t[0] == v@[i as int] && t[1] == v@[i + 1]);
            assert(t.skip(2) =~= v@.skip(i + 2));
        }
        i = i + 2;
    }
    proof {
        let t = v@.skip(i as int);
        if t.len() >= 2 {
            assert(t[0] == v@[i as int] && t[1] == v@[i + 1]);
        }
    }
    let r = part(v, i, v.len());
    assert(r@ =~= v@.skip(i as int));
    r
}

/// The value of a hexadecimal digit.
pub open spec fn hex_value(c: char) -> Option<int> {
    if '0' <= c <= '9' {
        Some(c as u32 - 48)
    } else if 'a' <= c <= 'f' {
        Some(c as u32 - 87)
    } else if 'A' <= c <= 'F' {
        Some(c as u32 - 55)
    } else {
        None
    }
}

fn hex_value_of(c: char) -> (r: Option<u8>)
    ensures
        match r {
            Some(x) => hex_value(c) == Some(x as int) && x < 16,
            None => hex_value(c) is None,
        },
{
    if '0' <= c && c <= '9' {
        Some(c as u8 - 48)
    } else if 'a' <= c && c <= 'f' {
        Some(c as u8 - 87)
    } else if 'A' <= c && c <= 'F' {
        Some(c as u8 - 55)
    } else {
        None
    }
}

/// The hexadecimal digits of an initialisation vector.
pub open spec fn iv_digits(s: Seq<char>) -> Seq<char> {
    unprefixed(unprefixed(trimmed(s), '0', 'x'), '0', 'X')
}

/// Whether some characters are one to sixteen bytes in hexadecimal digits.
pub open spec fn is_iv_hex(h: Seq<char>) -> bool {
    &&& 0 < h.len() <= 32
    &&& h.len() % 2 == 0
    &&& forall|i: int| 0 <= i < h.len() ==> hex_value(#[trigger] h[i]) is Some
}

/// Sixteen bytes with the digits at their end and zeros before.
pub open spec fn iv_bytes(h: Seq<char>) -> Seq<u8> {
    let pad = 16 - h.len() / 2;
    Seq::new(
        16,
        |i: int| if i < pad {
            0u8
        } else {
            (hex_value(h[2 * (i - pad)])->0 * 16 + hex_value(h[2 * (i - pad) + 1])->0) as u8
        },
    )
}

/// Reads an initialisation vector in hexadecimal digits, right-aligned.
pub fn parse_iv(v: &str) -> (r: Option<[u8; 16]>)
    ensures
        match r {
            Some(iv) => is_iv_hex(iv_digits(v@)) && iv@ == iv_bytes(iv_digits(v@)),
            None => !is_iv_hex(iv_digits(v@)),
        },
{
    let c = chars_of(v);
    let t = trim(&c);
    let t = strip_pairs(&t, '0', 'x');
    let h = strip_pairs(&t, '0', 'X');
    let n: usize = h.len();
    if n == 0 || n > 32 || n % 2 != 0 {
        return None;
    }
    let pad: usize = 16 - n / 2;
    let mut out: [u8; 16] = [0u8; 16];
    let mut i: usize = 0;
    while i < n / 2
        invariant
            h@ == iv_digits(v@),
            n == h@.len(),
            0 < n <= 32,
            n % 2 == 0,
            pad == 16 - n / 2,
            i <= n / 2,
            out@.len() == 16,
            forall|k: int| 0 <= k < 2 * i ==> hex_value(#[trigger] h@[k]) is Some,
            forall|k: int| 0 <= k < pad ==> out@[k] == 0,
            forall|k: int|
                pad <= k < pad + i ==> #[trigger] out@[k] == (hex_value(h@[2 * (k - pad)])->0 * 16 + hex_value(
                    h@[2 * (k - pad) + 1],
                )->0) as u8,
        decreases n / 2 - i,
    {
        let hi = hex_value_of(h[2 * i]);
        let lo = hex_value_of(h[2 * i + 1]);
        match (hi, lo) {
            (Some(a), Some(b)) => {
                out[pad + i] = a * 16 + b;
            },
            _ => {
                assert(hex_value(h@[2 * i]) is None || hex_value(h@[2 * i + 1]) is None);
                return None;
            },
        }
        i = i + 1;
    }
    assert(out@ =~= iv_bytes(h@));
    Some(out)
}

/// Byte `k` of a number, counted from its low end.
pub open spec fn low_byte(n: int, k: int) -> int
    decreases k,
{
    if k <= 0 {
        n % 256
    } else {
        low_byte(n / 256, k - 1)
    }
}

/// Sixteen bytes that hold a 64-bit number with the high byte first.
pub open spec fn sequence_iv(seq: u64) -> Seq<u8> {
    Seq::new(16, |i: int| if i < 8 { 0u8 } else { low_byte(seq as int, 15 - i) as u8 })
}

/// The initialisation vector of the segment with this media sequence number.
pub fn iv_from_sequence(seq: u64) -> (r: [u8; 16])
    ensures
        r@ == sequence_iv(seq),
{
    let mut iv: [u8; 16] = [0u8; 16];
    let mut rest: u64 = seq;
    let mut k: usize = 0;
    while k < 8
        invariant
            k <= 8,
            iv@.len() == 16,
            forall|i: int| 0 <= i < 16 - k ==> iv@[i] == 0,
            forall|i: int| 16 - k <= i < 16 ==> #[trigger] iv@[i] == low_byte(seq as int, 15 - i) as u8,
            forall|j: int| #![trigger low_byte(seq as int, j)] k <= j ==> low_byte(seq as int, j) == low_byte(
                rest as int,
                j - k,
            ),
        decreases 8 - k,
    {
        proof {
            assert(low_byte(seq as int, k as int) == low_byte(rest as int, 0));
        }
        iv[15 - k] = (rest % 256) as u8;
        let ghost before = rest as int;
        rest = rest / 256;
        proof {
            assert forall|j: int| #![trigger low_byte(seq as int, j)] k + 1 <= j implies low_byte(
                seq as int,
                j,
            ) == low_byte(rest as int, j - (k + 1)) by {
                assert(low_byte(seq as int, j) == low_byte(before, j - k));
            }
        }
        k = k + 1;
    }
    assert(iv@ =~= sequence_iv(seq));
    iv
}

// ---------------------------------------------------------------------------
// What is written is read
// ---------------------------------------------------------------------------

/// The vector of a segment is its media sequence number in sixteen bytes, the high byte
/// first.
pub proof fn law_sequence_vector_spells_the_number(n: u64)
    ensures
        sequence_iv(n).len() == 16,
        spelled(sequence_iv(n)) == n,
{
    let b = sequence_iv(n);
    reveal_with_fuel(low_byte, 9);
    let x = n as int;
    let x1 = x / 256;
    let x2 = x1 / 256;
    let x3 = x2 / 256;
    let x4 = x3 / 256;
    let x5 = x4 / 256;
    let x6 = x5 / 256;
    let x7 = x6 / 256;
    assert(b[15] == x % 256 && b[14] == x1 % 256 && b[13] == x2 % 256 && b[12] == x3 % 256);
    assert(b[11] == x4 % 256 && b[10] == x5 % 256 && b[9] == x6 % 256 && b[8] == x7 % 256);
    lemma_spelled_more(b);
    let c = b.take(12);
    lemma_spelled_more(c);
    let d = c.take(8);
    lemma_spelled_more(d);
    let e = d.take(4);
    lemma_spelled_more(e);
    assert(e.take(0) =~= Seq::<u8>::empty());
    assert(spelled(d) == 0);
}

/// The number that some hexadecimal digits spell.
pub open spec fn hex_number(h: Seq<char>) -> int
    decreases h.len(),
{
    if h.len() == 0 {
        0
    } else {
        hex_number(h.drop_last()) * 16 + hex_value(h.last())->0
    }
}

spec fn pair_bytes(h: Seq<char>) -> Seq<u8> {
    Seq::new(
        h.len() / 2,
        |i: int| (hex_value(h[2 * i])->0 * 16 + hex_value(h[2 * i + 1])->0) as u8,
    )
}

proof fn lemma_pair_bytes(h: Seq<char>)
    requires
        h.len() % 2 == 0,
        forall|i: int| 0 <= i < h.len() ==> hex_value(#[trigger] h[i]) is Some,
    ensures
        spelled(pair_bytes(h)) == hex_number(h),
    decreases h.len(),
{
    if h.len() > 0 {
        let n = h.len() as int;
        let t = h.take(n - 2);
        assert forall|i: int| 0 <= i < t.len() implies hex_value(#[trigger] t[i]) is Some by {
            assert(t[i] == h[i]);
        }
        lemma_pair_bytes(t);
        assert(hex_value(h[n - 1]) is Some && hex_value(h[n - 2]) is Some);
        let b = pair_bytes(h);
        assert(b.drop_last() =~= pair_bytes(t));
        assert(2 * (n / 2 - 1) == n - 2);
        assert(b.last() == hex_value(h[n - 2])->0 * 16 + hex_value(h[n - 1])->0);
        assert(h.drop_last().drop_last() =~= t);
        assert(h.drop_last().last() == h[n - 2]);
        assert(hex_number(h.drop_last()) == hex_number(t) * 16 + hex_value(h[n - 2])->0);
    }
}

proof fn lemma_leading_zeros(z: Seq<u8>, b: Seq<u8>)
    requires
        forall|i: int| 0 <= i < z.len() ==> #[trigger] z[i] == 0,
    ensures
        spelled(z + b) == spelled(b),
    decreases z.len() + b.len(),
{
    if b.len() > 0 {
        assert((z + b).drop_last() =~= z + b.drop_last());
        lemma_leading_zeros(z, b.drop_last());
    } else if z.len() > 0 {
        assert(z + b =~= z);
        assert(z.drop_last() + b =~= z.drop_last());
        assert(z.last() == z[z.len() - 1]);
        lemma_leading_zeros(z.drop_last(), b);
    } else {
        assert(z + b =~= b);
    }
}

/// A vector that is given in hexadecimal digits is sixteen bytes that spell the same
/// number.
pub proof fn law_given_vector_spells_its_digits(h: Seq<char>)
    requires
        is_iv_hex(h),
    ensures
        iv_bytes(h).len() == 16,
        spelled(iv_bytes(h)) == hex_number(h),
{
    let pad = 16 - h.len() / 2;
    let z = Seq::new(pad as nat, |i: int| 0u8);
    assert(iv_bytes(h) =~= z + pair_bytes(h)) by {
        assert forall|i: int| pad <= i < 16 implies iv_bytes(h)[i] == (z + pair_bytes(h))[i] by {}
    }
    lemma_pair_bytes(h);
    lemma_leading_zeros(z, pair_bytes(h));
}

/// Hexadecimal digits count as usual, whatever their case.
pub proof fn law_hexadecimal_digits_count(c: char)
    ensures
        '0' <= c <= '9' ==> hex_value(c) == Some(c as u32 - '0' as u32),
        'a' <= c <= 'f' ==> hex_value(c) == Some(c as u32 - 'a' as u32 + 10),
        hex_value(crate::text::upper(c)) == hex_value(c),
        hex_value(c) is Some ==> 0 <= hex_value(c)->0 < 16,
        hex_value(c) is Some ==> !white_space(c) && c != 'x' && c != 'X',
{
}

/// A vector may begin with the mark of hexadecimal digits, in either case.
pub proof fn law_vector_mark_is_left_out(h: Seq<char>)
    requires
        is_iv_hex(h),
    ensures
        iv_digits(h) == h,
        iv_digits(seq!['0', 'x'] + h) == h,
        iv_digits(seq!['0', 'X'] + h) == h,
{
    law_hexadecimal_digits_count(h[0]);
    law_hexadecimal_digits_count(h[h.len() - 1]);
    assert(h.len() >= 2);
    law_hexadecimal_digits_count(h[1]);
    assert(h.last() == h[h.len() - 1]);
    law_trimmed_stays(h);
    let a = seq!['0', 'x'] + h;
    let b = seq!['0', 'X'] + h;
    assert(a.last() == h.last() && b.last() == h.last());
    law_trimmed_stays(a);
    law_trimmed_stays(b);
    assert(a.skip(2) =~= h);
    assert(b.skip(2) =~= h);
    assert(unprefixed(h, '0', 'x') == h);
    assert(unprefixed(h, '0', 'X') == h);
    assert(unprefixed(a, '0', 'x') == h);
    assert(unprefixed(b, '0', 'x') == b);
    assert(unprefixed(b, '0', 'X') == h);
}

proof fn lemma_digits_are_plain(n: nat)
    ensures
        decimal(n).len() > 0,
        !white_space(decimal(n)[0]),
        !white_space(decimal(n).last()),
        trimmed(decimal(n)) == decimal(n),
        forall|c: char| !crate::text::is_digit(c) ==> !#[trigger] decimal(n).contains(c),
{
    lemma_decimal(n);
    let d = decimal(n);
    assert(crate::text::is_digit(d[0]));
    assert(crate::text::is_digit(d[d.len() - 1]));
    law_trimmed_stays(d);
    assert forall|c: char| !crate::text::is_digit(c) implies !#[trigger] d.contains(c) by {
        if d.contains(c) {
            let i = choose|i: int| 0 <= i < d.len() && d[i] == c;
            assert(crate::text::is_digit(d[i]));
        }
    }
}

/// A byte range is a length, or a length and an offset behind an at sign.
pub proof fn law_byte_range_is_read(len: u64, off: u64)
    ensures
        byte_range(decimal(len as nat)) == Some((len, None::<u64>)),
        byte_range(decimal(len as nat).push('@') + decimal(off as nat)) == Some((len, Some(off))),
{
    let a = decimal(len as nat);
    let b = decimal(off as nat);
    lemma_digits_are_plain(len as nat);
    lemma_digits_are_plain(off as nat);
    law_decimal_round_trip(len as nat);
    law_decimal_round_trip(off as nat);
    law_cut_at_the_first(a, b, '@');
    let s = a.push('@') + b;
    assert(s[0] == a[0] && s.last() == b.last());
    law_trimmed_stays(s);
}

/// A number behind a name is that of the attribute; a resolution is width, an x and
/// height.
pub proof fn law_variant_figures_are_read(attrs: Seq<(Seq<char>, Seq<char>)>, n: u64, w: u64, h: u64)
    ensures
        attr_value(attrs, "BANDWIDTH"@) == Some(decimal(n as nat)) ==> bandwidth_of(attrs) == n,
        attr_value(attrs, "BANDWIDTH"@) is None ==> bandwidth_of(attrs) == 0,
        attr_value(attrs, "RESOLUTION"@) == Some(decimal(w as nat).push('x') + decimal(h as nat)) && w
            * h <= u64::MAX ==> area_of(attrs) == w * h,
        attr_value(attrs, "RESOLUTION"@) is None ==> area_of(attrs) == 0,
{
    let a = decimal(w as nat);
    let b = decimal(h as nat);
    lemma_digits_are_plain(n as nat);
    lemma_digits_are_plain(w as nat);
    lemma_digits_are_plain(h as nat);
    law_decimal_round_trip(n as nat);
    law_decimal_round_trip(w as nat);
    law_decimal_round_trip(h as nat);
    law_cut_at_the_first(a, b, 'x');
    assert(0 <= w * h) by (nonlinear_arith);
}

/// The best variant has the highest bandwidth, and the largest picture of those; the worst
/// one the lowest and smallest.
pub proof fn law_choice_is_extreme(v: Seq<VariantView>, i: int, j: int)
    requires
        0 <= j < v.len(),
    ensures
        is_choice(v, false, i) ==> v[j].bandwidth <= v[i].bandwidth && (v[j].bandwidth == v[i].bandwidth
            ==> v[j].area <= v[i].area),
        is_choice(v, true, i) ==> v[i].bandwidth <= v[j].bandwidth && (v[j].bandwidth == v[i].bandwidth
            ==> v[i].area <= v[j].area),
        is_choice(v, false, i) && is_choice(v, false, j) ==> i == j,
        is_choice(v, true, i) && is_choice(v, true, j) ==> i == j,
{
    if is_choice(v, false, i) {
        assert(ranks_over(v[i], v[j], false));
        if is_choice(v, false, j) {
            assert(ranks_over(v[j], v[i], false));
        }
    }
    if is_choice(v, true, i) {
        assert(ranks_over(v[i], v[j], true));
        if is_choice(v, true, j) {
            assert(ranks_over(v[j], v[i], true));
        }
    }
}

// ---------------------------------------------------------------------------
// Attribute lists
// ---------------------------------------------------------------------------

/// An attribute as it is written: the name, an equals sign and the value in quotes.
pub open spec fn written_attr(p: (Seq<char>, Seq<char>)) -> Seq<char> {
    p.0 + seq!['=', '"'] + p.1 + seq!['"']
}

/// Attributes as they are written, with commas between them.
pub open spec fn written_attrs(p: Seq<(Seq<char>, Seq<char>)>) -> Seq<char>
    decreases p.len(),
{
    if p.len() == 0 {
        Seq::empty()
    } else if p.len() == 1 {
        written_attr(p[0])
    } else {
        written_attrs(p.drop_last()) + seq![','] + written_attr(p.last())
    }
}

/// A name and a value that can be written so: the name in capitals without marks or outer
/// white space, the value without quotes. Commas in the value do not matter.
pub open spec fn is_plain_attr(p: (Seq<char>, Seq<char>)) -> bool {
    &&& p.0.len() > 0
    &&& trimmed(p.0) == p.0
    &&& uppered(p.0) == p.0
    &&& !p.0.contains('=')
    &&& !p.0.contains(',')
    &&& !p.0.contains('"')
    &&& !p.1.contains('"')
}

proof fn lemma_scan_more(a: Seq<char>, b: Seq<char>)
    requires
        !b.contains('"'),
        attr_scan(a).2 || !b.contains(','),
    ensures
        attr_scan(a + b) == (attr_scan(a).0, attr_scan(a).1 + b, attr_scan(a).2),
    decreases b.len(),
{
    if b.len() == 0 {
        assert(a + b =~= a);
        assert(attr_scan(a).1 + b =~= attr_scan(a).1);
    } else {
        let front = b.drop_last();
        assert(b[b.len() - 1] == b.last());
        assert forall|c: char| front.contains(c) implies b.contains(c) by {
            let i = choose|i: int| 0 <= i < front.len() && front[i] == c;
            assert(b[i] == c);
        }
        lemma_scan_more(a, front);
        assert((a + b).drop_last() =~= a + front);
        assert((a + b).last() == b.last());
        assert((attr_scan(a).1 + front).push(b.last()) =~= attr_scan(a).1 + b);
    }
}

proof fn lemma_scan_one(a: Seq<char>, p: (Seq<char>, Seq<char>))
    requires
        is_plain_attr(p),
        attr_scan(a).1.len() == 0,
        !attr_scan(a).2,
    ensures
        attr_scan(a + written_attr(p)) == (attr_scan(a).0, written_attr(p), false),
{
    let s1 = a + p.0;
    lemma_scan_more(a, p.0);
    let s2 = s1.push('=');
    assert(s2.drop_last() =~= s1 && s2.last() == '=');
    assert(attr_scan(s2) == (attr_scan(a).0, attr_scan(s1).1.push('='), false));
    let s3 = s2.push('"');
    assert(s3.drop_last() =~= s2 && s3.last() == '"');
    assert(attr_scan(s3) == (attr_scan(a).0, attr_scan(s2).1.push('"'), true));
    let s4 = s3 + p.1;
    lemma_scan_more(s3, p.1);
    let s5 = s4.push('"');
    assert(s5.drop_last() =~= s4 && s5.last() == '"');
    assert(attr_scan(s5) == (attr_scan(a).0, attr_scan(s4).1.push('"'), false));
    assert(s5 =~= a + written_attr(p));
    assert(attr_scan(s5).1 =~= written_attr(p));
}

proof fn lemma_pair_is_read(p: (Seq<char>, Seq<char>))
    requires
        is_plain_attr(p),
    ensures
        attr_pair(written_attr(p)) == Some(p),
        trimmed(written_attr(p)).len() > 0,
{
    let v = seq!['"'] + p.1 + seq!['"'];
    let w = written_attr(p);
    assert(w =~= p.0.push('=') + v);
    law_cut_at_the_first(p.0, v, '=');
    assert(!white_space('"'));
    assert(v[0] == '"' && v.last() == '"');
    law_trimmed_stays(v);
    let t = v.skip(1);
    assert(t =~= p.1.push('"'));
    if p.1.len() > 0 {
        assert(p.1[0] != '"');
        assert(p.1[p.1.len() - 1] != '"');
        assert(t[0] == p.1[0]);
        assert(stripped_start(t, '"') == t);
        assert(stripped_start(v, '"') == t);
        assert(t.drop_last() =~= p.1);
        assert(stripped_end(p.1, '"') == p.1);
        assert(stripped_end(t, '"') == p.1);
    } else {
        assert(t.skip(1) =~= Seq::<char>::empty());
        assert(stripped_start(t.skip(1), '"') =~= Seq::<char>::empty());
        assert(t[0] == '"');
        assert(stripped_start(t, '"') =~= Seq::<char>::empty());
        assert(stripped_start(v, '"') =~= Seq::<char>::empty());
        assert(p.1 =~= Seq::<char>::empty());
        assert(stripped_end(Seq::<char>::empty(), '"') =~= p.1);
    }
    let r = law_trim_takes_only_white_space(w);
    assert(w[w.len() - 1] == '"');
    if r.1 <= w.len() - 1 {
        assert(white_space(w[w.len() - 1]));
    }
    if r.0 == r.1 {
        assert(white_space(w[w.len() - 1]));
    }
}

spec fn written_each(p: Seq<(Seq<char>, Seq<char>)>) -> Seq<Seq<char>> {
    Seq::new(p.len(), |i: int| written_attr(p[i]))
}

proof fn lemma_scan_all(p: Seq<(Seq<char>, Seq<char>)>)
    requires
        p.len() > 0,
        forall|i: int| 0 <= i < p.len() ==> is_plain_attr(#[trigger] p[i]),
    ensures
        attr_scan(written_attrs(p)) == (
            written_each(p.drop_last()),
            written_attr(p.last()),
            false,
        ),
    decreases p.len(),
{
    let none = Seq::<char>::empty();
    if p.len() == 1 {
        assert(attr_scan(none).1.len() == 0);
        assert(is_plain_attr(p[0]));
        lemma_scan_one(none, p[0]);
        assert(none + written_attr(p[0]) =~= written_attr(p[0]));
        assert(written_each(p.drop_last()) =~= Seq::<Seq<char>>::empty());
    } else {
        let front = p.drop_last();
        assert forall|i: int| 0 <= i < front.len() implies is_plain_attr(#[trigger] front[i]) by {
            assert(front[i] == p[i]);
        }
        lemma_scan_all(front);
        let s = written_attrs(front);
        let t = s.push(',');
        assert(t.drop_last() =~= s);
        assert(attr_scan(t).0 == written_each(front.drop_last()).push(written_attr(front.last())));
        assert(attr_scan(t).0 =~= written_each(front));
        assert(is_plain_attr(p[p.len() - 1]));
        lemma_scan_one(t, p.last());
        assert(t + written_attr(p.last()) =~= written_attrs(p));
    }
}

proof fn lemma_pairs_are_read(p: Seq<(Seq<char>, Seq<char>)>)
    requires
        forall|i: int| 0 <= i < p.len() ==> is_plain_attr(#[trigger] p[i]),
    ensures
        attr_pairs(written_each(p)) == p,
    decreases p.len(),
{
    if p.len() > 0 {
        let front = p.drop_last();
        assert forall|i: int| 0 <= i < front.len() implies is_plain_attr(#[trigger] front[i]) by {
            assert(front[i] == p[i]);
        }
        lemma_pairs_are_read(front);
        assert(written_each(p).drop_last() =~= written_each(front));
        assert(is_plain_attr(p[p.len() - 1]));
        lemma_pair_is_read(p.last());
        assert(front.push(p.last()) =~= p);
    } else {
        assert(attr_pairs(written_each(p)) =~= p);
    }
}

/// A list of attributes is read as it was written, with names and values in their places,
/// also where a value holds commas.
pub proof fn law_attributes_are_read_back(p: Seq<(Seq<char>, Seq<char>)>)
    requires
        forall|i: int| 0 <= i < p.len() ==> is_plain_attr(#[trigger] p[i]),
    ensures
        attributes(written_attrs(p)) == p,
{
    if p.len() == 0 {
        assert(written_attrs(p) =~= Seq::<char>::empty());
        law_trimmed_stays(Seq::<char>::empty());
        assert(attributes(written_attrs(p)) =~= p);
    } else {
        lemma_scan_all(p);
        assert(is_plain_attr(p[p.len() - 1]));
        lemma_pair_is_read(p.last());
        assert(attr_parts(written_attrs(p)) =~= written_each(p));
        lemma_pairs_are_read(p);
    }
}

/// An attribute has the value of the first entry of its name, and none if no entry has it.
pub proof fn law_first_attribute_counts(attrs: Seq<(Seq<char>, Seq<char>)>, key: Seq<char>, i: int)
    requires
        0 <= i <= attrs.len(),
        forall|j: int| 0 <= j < i ==> (#[trigger] attrs[j]).0 != key,
        i < attrs.len() ==> attrs[i].0 == key,
    ensures
        i < attrs.len() ==> attr_value(attrs, key) == Some(attrs[i].1),
        i == attrs.len() ==> attr_value(attrs, key) is None,
    decreases i,
{
    if i > 0 {
        assert(attrs[0].0 != key);
        let rest = attrs.skip(1);
        assert forall|j: int| 0 <= j < i - 1 implies (#[trigger] rest[j]).0 != key by {
            assert(rest[j] == attrs[j + 1]);
        }
        law_first_attribute_counts(rest, key, i - 1);
    }
}

// ---------------------------------------------------------------------------
// Variants
// ---------------------------------------------------------------------------

/// Whether a line announces a variant.
pub open spec fn announces(line: Seq<char>) -> bool {
    has_prefix(trimmed(line), "#EXT-X-STREAM-INF:"@)
}

/// Whether a line is the address of a playlist.
pub open spec fn is_target(line: Seq<char>) -> bool {
    trimmed(line).len() > 0 && trimmed(line)[0] != '#'
}

proof fn lemma_announced(lines: Seq<Seq<char>>, base: Seq<char>, j: int, i: int)
    requires
        0 <= j < i <= lines.len(),
        announces(lines[j]),
        forall|k: int| j < k < i ==> !announces(#[trigger] lines[k]) && !is_target(lines[k]),
    ensures
        variant_scan(lines.take(i), base).pending is Some,
        variant_scan(lines.take(i), base).pending->0 == ({
            let attrs = attributes(trimmed(lines[j]).skip(18));
            (bandwidth_of(attrs) as u64, area_of(attrs) as u64)
        }),
    decreases i,
{
    let now = lines.take(i);
    assert(now.drop_last() =~= lines.take(i - 1));
    assert(now.last() == lines[i - 1]);
    reveal_strlit("#EXT-X-STREAM-INF:");
    if i - 1 > j {
        lemma_announced(lines, base, j, i - 1);
        assert(!announces(lines[i - 1]) && !is_target(lines[i - 1]));
    } else {
        assert(trimmed(lines[j]).len() > 0);
    }
}

/// An address behind a line that announces a variant, with neither another such line nor
/// another address between them, is a variant with the figures of that line.
pub proof fn law_variant_has_the_figures_of_its_line(
    lines: Seq<Seq<char>>,
    base: Seq<char>,
    j: int,
    i: int,
)
    requires
        0 <= j < i < lines.len(),
        announces(lines[j]),
        is_target(lines[i]),
        forall|k: int| j < k < i ==> !announces(#[trigger] lines[k]) && !is_target(lines[k]),
    ensures
        ({
            let attrs = attributes(trimmed(lines[j]).skip(18));
            let before = variant_scan(lines.take(i), base).found;
            let after = variant_scan(lines.take(i + 1), base).found;
            match resolved(base, trimmed(lines[i])) {
                Some(u) => after == before.push(
                    VariantView {
                        url: u,
                        bandwidth: bandwidth_of(attrs) as u64,
                        area: area_of(attrs) as u64,
                    },
                ),
                None => after == before,
            }
        }),
{
    lemma_announced(lines, base, j, i);
    let now = lines.take(i + 1);
    assert(now.drop_last() =~= lines.take(i));
    assert(now.last() == lines[i]);
    reveal_strlit("#EXT-X-STREAM-INF:");
    let line = trimmed(lines[i]);
    if has_prefix(line, "#EXT-X-STREAM-INF:"@) {
        assert(line[0] == "#EXT-X-STREAM-INF:"@[0]);
    }
}

/// Only an address adds a variant, one at most. What was found before stays.
pub proof fn law_only_addresses_are_variants(lines: Seq<Seq<char>>, base: Seq<char>, i: int)
    requires
        0 <= i < lines.len(),
    ensures
        ({
            let before = variant_scan(lines.take(i), base).found;
            let after = variant_scan(lines.take(i + 1), base).found;
            &&& !is_target(lines[i]) ==> after == before
            &&& before.len() <= after.len() <= before.len() + 1
            &&& after.take(before.len() as int) == before
        }),
        (forall|k: int| 0 <= k < i ==> !announces(#[trigger] lines[k])) ==> variant_scan(
            lines.take(i + 1),
            base,
        ).found.len() == 0,
    decreases i,
{
    let now = lines.take(i + 1);
    assert(now.drop_last() =~= lines.take(i));
    assert(now.last() == lines[i]);
    let before = variant_scan(lines.take(i), base).found;
    let after = variant_scan(now, base).found;
    reveal_strlit("#EXT-X-STREAM-INF:");
    let line = trimmed(lines[i]);
    if has_prefix(line, "#EXT-X-STREAM-INF:"@) {
        assert(line[0] == "#EXT-X-STREAM-INF:"@[0]);
    }
    assert(after.take(before.len() as int) =~= before);
    if forall|k: int| 0 <= k < i ==> !announces(#[trigger] lines[k]) {
        lemma_unannounced(lines, base, i);
    }
}

proof fn lemma_unannounced(lines: Seq<Seq<char>>, base: Seq<char>, i: int)
    requires
        0 <= i <= lines.len(),
        forall|k: int| 0 <= k < i ==> !announces(#[trigger] lines[k]),
    ensures
        variant_scan(lines.take(i), base).pending is None,
        variant_scan(lines.take(i), base).found.len() == 0,
    decreases i,
{
    if i > 0 {
        lemma_unannounced(lines, base, i - 1);
        let now = lines.take(i);
        assert(now.drop_last() =~= lines.take(i - 1));
        assert(now.last() == lines[i - 1]);
        assert(!announces(lines[i - 1]));
    }
}

/// A text that begins with the playlist mark is a playlist, and one that begins otherwise
/// is none.
pub proof fn law_playlist_begins_with_its_mark(s: Seq<char>)
    requires
        s.len() > 0,
        !white_space(s[0]),
        !white_space(s.last()),
        s[0] != '\u{feff}',
    ensures
        is_manifest("#EXTM3U"@ + s),
        s.len() >= 7 ==> (is_manifest(s) <==> s.take(7) == "#EXTM3U"@),
        s.len() < 7 ==> !is_manifest(s),
{
    reveal_strlit("#EXTM3U");
    let mark = "#EXTM3U"@;
    let t = mark + s;
    assert(mark[0] == '#');
    assert(t[0] == '#' && t.last() == s.last());
    law_trimmed_stays(t);
    law_trimmed_stays(s);
    assert(stripped_start(t, '\u{feff}') == t);
    assert(stripped_start(s, '\u{feff}') == s);
    assert(t.take(7) =~= mark);
    assert(t.subrange(0, 7) =~= mark);
    if s.len() >= 7 {
        assert(s.take(7) =~= s.subrange(0, 7));
    }
}

} // verus!

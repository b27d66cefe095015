//! Download of an HLS playlist: plan, resume and order of the segments.
//!
//! Segments are fetched side by side, each into a file of its own, and joined to the
//! product strictly in their order. What lies in these files counts as progress and is
//! kept over a pause. Times are nanoseconds of one monotonic clock.

use vstd::prelude::*;

use crate::conns::{elapsed, elapsed_since};
use crate::errors::HttpError;
use crate::estimate::{
    as_ints, durations_of, estimate_total, estimated, lemma_sum_of, lemma_sum_update,
    lemma_sum_zero, measure_total, measured, parse_durations, sum_of,
};
use crate::manifest::{
    choose_variant, is_choice, is_manifest, is_master, is_master_text, looks_like_manifest,
    parse_variants, string_texts, variant_views, variants_of,
};
use crate::media::{
    media_of, parse_media, segment_option, segment_views, wrap_sum, Segment, SegmentView,
};
use crate::outside::{
    aes128_cbc_decrypt, aes128_cbc_plain, hex_encode, hex_text, parse_url, sha256, sha256_digest,
    url_parsed,
};
use crate::pieces::{lemma_added_records, lemma_new_records, PieceTrack};
use crate::text::{
    chars_of, dec_chars, decimal, ends_with, has_suffix, joined, lowered, part, push_all, push_str,
    same_str, same_text, split, split_on, string_of, to_lower,
};
use crate::writer::{display_piece_len, shown_piece_len};

verus! {

/// Largest playlist that is read.
pub const MANIFEST_MAX_BYTES: usize = 8_388_608;
/// Most steps from a master playlist to a media playlist.
pub const MAX_VARIANT_HOPS: usize = 3;
/// With more segments of unknown size none is probed.
pub const SIZE_PROBE_MAX_SEGMENTS: usize = 5000;
/// Most probes at a time.
pub const SIZE_PROBE_CONCURRENCY: usize = 8;
/// Most segments in flight.
pub const MAX_SEGMENT_CONCURRENCY: usize = 64;
/// Attempts per segment unless told otherwise.
pub const DEFAULT_SEGMENT_RETRIES: u32 = 3;
/// Least time between two saves of the control file.
pub const PLAYLIST_SAVE_INTERVAL: u64 = 1_000_000_000;
/// Version of the control file.
pub const PLAYLIST_CTRL_VERSION: u32 = 1;

/// What is to be downloaded.
pub struct PlaylistPlan {
    /// Address of the media playlist.
    pub source: String,
    /// The master playlists that led there.
    pub chain: Vec<String>,
    /// Initialisation part; it comes first.
    pub init: Option<Segment>,
    pub segments: Vec<Segment>,
    /// The playlist has no end mark.
    pub live: bool,
    /// The media is fragmented MP4.
    pub fmp4: bool,
    /// Size of everything, if all sizes are known.
    pub total: Option<u64>,
}

/// Result of a playlist download.
#[derive(Clone, Copy)]
pub struct PlaylistDone {
    pub bytes: u64,
    /// Segments written, the initialisation part included.
    pub segments: usize,
    pub total_segments: usize,
}

/// Options of a playlist download.
pub struct PlaylistOptions {
    /// Segments in flight.
    pub concurrency: usize,
    /// Attempts per segment.
    pub retries: u32,
    /// Whether sizes are probed.
    pub probe_sizes: bool,
    /// Whether the lowest variant is chosen.
    pub prefer_worst: bool,
    /// Headers that every request carries: for playlists, keys and segments.
    pub headers: Vec<(String, String)>,
}

impl Default for PlaylistOptions {
    fn default() -> (r: Self)
        ensures
            r.concurrency == 16,
            r.retries == DEFAULT_SEGMENT_RETRIES,
            r.probe_sizes,
            !r.prefer_worst,
            r.headers@.len() == 0,
    {
        PlaylistOptions {
            concurrency: 16,
            retries: DEFAULT_SEGMENT_RETRIES,
            probe_sizes: true,
            prefer_worst: false,
            headers: Vec::new(),
        }
    }
}

/// Progress of a playlist download.
pub struct PlaylistStats {
    /// Bytes on disk.
    pub completed: u64,
    /// Segments in flight.
    pub connections: usize,
}

impl PlaylistStats {
    /// Progress that starts at `baseline` bytes.
    pub fn new(baseline: u64) -> (r: Self)
        ensures
            r.completed == baseline,
            r.connections == 0,
    {
        PlaylistStats { completed: baseline, connections: 0 }
    }
}

impl PlaylistPlan {
    /// Number of parts, the initialisation part included.
    pub open spec fn count(&self) -> int {
        self.segments@.len() + if self.init is Some { 1int } else { 0int }
    }

    /// All parts in the order of the file.
    pub open spec fn parts(&self) -> Seq<SegmentView> {
        match self.init {
            Some(i) => seq![i.view()] + segment_views(self.segments@),
            None => segment_views(self.segments@),
        }
    }

    /// Number of parts, the initialisation part included.
    pub fn segment_count(&self) -> (r: usize)
        requires
            self.segments@.len() < usize::MAX,
        ensures
            r == self.count(),
            r == self.parts().len(),
    {
        if self.init.is_some() {
            self.segments.len() + 1
        } else {
            self.segments.len()
        }
    }

    /// All parts in the order of the file.
    pub fn all_parts(&self) -> (r: Vec<Segment>)
        ensures
            segment_views(r@) == self.parts(),
    {
        let mut out: Vec<Segment> = Vec::new();
        let mut i: usize = 0;
        match &self.init {
            Some(s) => out.push(s.clone()),
            None => {},
        }
        let ghost head = segment_views(out@);
        let ghost segs = segment_views(self.segments@);
        assert(segs.take(0) =~= Seq::<SegmentView>::empty());
        assert(head + segs.take(0) =~= head);
        while i < self.segments.len()
            invariant
                i <= self.segments@.len(),
                segs == segment_views(self.segments@),
                segment_views(out@) == head + segs.take(i as int),
            decreases self.segments@.len() - i,
        {
            let ghost before = segment_views(out@);
            let s = self.segments[i].clone();
            let ghost shown = s.view();
            out.push(s);
            proof {
                assert(segment_views(out@) =~= before.push(shown));
                assert(segs[i as int] == shown);
                assert((head + segs.take(i as int)).push(shown) =~= head + segs.take(i + 1));
            }
            i = i + 1;
        }
        proof {
            assert(segs.take(i as int) =~= segs);
            if self.init is Some {
                assert(head =~= seq![self.init->0.view()]);
            } else {
                assert(head =~= Seq::<SegmentView>::empty());
                assert(head + segs =~= segs);
            }
        }
        out
    }
}

// ---------------------------------------------------------------------------
// Plan
// ---------------------------------------------------------------------------

/// An address up to its query or fragment.
pub open spec fn path_part(s: Seq<char>) -> Seq<char>
    decreases s.len(),
{
    if s.len() == 0 || s[0] == '?' || s[0] == '#' {
        Seq::empty()
    } else {
        seq![s[0]] + path_part(s.skip(1))
    }
}

pub(crate) fn path_chars(v: &Vec<char>) -> (r: Vec<char>)
    ensures
        r@ == path_part(v@),
{
    let mut out: Vec<char> = Vec::new();
    let mut i: usize = 0;
    assert(v@.skip(0) =~= v@);
    assert(out@ + path_part(v@.skip(0)) =~= path_part(v@));
    while i < v.len() && v[i] != '?' && v[i] != '#'
        invariant
            i <= v@.len(),
            out@ + path_part(v@.skip(i as int)) == path_part(v@),
        decreases v@.len() - i,
    {
        let c: char = v[i];
        let ghost before = out@;
        out.push(c);
        proof {
            let t = v@.skip(i as int);
            assert(t[0] == c);
            assert(t.skip(1) =~= v@.skip(i + 1));
            assert(before + (seq![c] + path_part(v@.skip(i + 1))) =~= before.push(c) + path_part(
                v@.skip(i + 1),
            ));
        }
        i = i + 1;
    }
    proof {
        let t = v@.skip(i as int);
        if t.len() > 0 {
            assert(t[0] == v@[i as int]);
        }
        assert(out@ + Seq::<char>::empty() =~= out@);
    }
    out
}

/// Whether an address looks like a part of fragmented MP4.
pub open spec fn mp4_like(url: Seq<char>) -> bool {
    let p = lowered(path_part(url));
    has_suffix(p, ".mp4"@) || has_suffix(p, ".m4s"@) || has_suffix(p, ".m4v"@) || has_suffix(p, ".cmfv"@)
}

/// Tests whether an address looks like a part of fragmented MP4.
pub fn is_mp4_like(url: &str) -> (r: bool)
    ensures
        r == mp4_like(url@),
{
    let v = chars_of(url);
    let p = path_chars(&v);
    let p = to_lower(&p);
    ends_with(&p, ".mp4") || ends_with(&p, ".m4s") || ends_with(&p, ".m4v") || ends_with(&p, ".cmfv")
}

/// Whether some segment looks like a part of fragmented MP4.
pub open spec fn any_mp4(segs: Seq<SegmentView>) -> bool {
    exists|i: int| 0 <= i < segs.len() && mp4_like(#[trigger] segs[i].url)
}

fn has_mp4(segs: &Vec<Segment>) -> (r: bool)
    ensures
        r == any_mp4(segment_views(segs@)),
{
    let ghost all = segment_views(segs@);
    let mut i: usize = 0;
    while i < segs.len()
        invariant
            i <= segs@.len(),
            all == segment_views(segs@),
            forall|j: int| 0 <= j < i ==> !mp4_like(#[trigger] all[j].url),
        decreases segs@.len() - i,
    {
        assert(all[i as int].url == segs@[i as int].url@);
        if is_mp4_like(segs[i].url.as_str()) {
            return true;
        }
        i = i + 1;
    }
    false
}

/// The sizes of some segments added up; none if one is unknown.
pub open spec fn size_sum(segs: Seq<SegmentView>) -> Option<int>
    decreases segs.len(),
{
    if segs.len() == 0 {
        Some(0)
    } else {
        match (size_sum(segs.drop_last()), segs.last().size) {
            (Some(a), Some(b)) => Some(a + b),
            _ => None,
        }
    }
}

/// The size of everything, if all sizes are known and fit 64 bits.
pub open spec fn plan_size(parts: Seq<SegmentView>) -> Option<u64> {
    match size_sum(parts) {
        Some(n) => if n <= u64::MAX {
            Some(n as u64)
        } else {
            None
        },
        None => None,
    }
}

proof fn lemma_size_sum_take(segs: Seq<SegmentView>, k: int)
    requires
        0 <= k <= segs.len(),
    ensures
        size_sum(segs) is Some ==> size_sum(segs.take(k)) is Some && 0 <= size_sum(segs.take(k))->0
            <= size_sum(segs)->0,
    decreases segs.len() - k,
{
    if k == segs.len() {
        assert(segs.take(k) =~= segs);
        lemma_size_sum_nonneg(segs);
    } else {
        lemma_size_sum_take(segs, k + 1);
        assert(segs.take(k + 1).drop_last() =~= segs.take(k));
        lemma_size_sum_nonneg(segs.take(k));
    }
}

proof fn lemma_size_sum_nonneg(segs: Seq<SegmentView>)
    ensures
        size_sum(segs) is Some ==> size_sum(segs)->0 >= 0,
    decreases segs.len(),
{
    if segs.len() > 0 {
        lemma_size_sum_nonneg(segs.drop_last());
    }
}

/// Adds up the sizes of all parts.
pub fn sum_sizes(plan: &PlaylistPlan) -> (r: Option<u64>)
    ensures
        r == plan_size(plan.parts()),
{
    let parts = plan.all_parts();
    let ghost all = plan.parts();
    let mut total: u64 = 0;
    let mut i: usize = 0;
    assert(all.take(0) =~= Seq::<SegmentView>::empty());
    while i < parts.len()
        invariant
            i <= parts@.len(),
            segment_views(parts@) == all,
            all == plan.parts(),
            size_sum(all.take(i as int)) == Some(total as int),
        decreases parts@.len() - i,
    {
        proof {
            assert(all.take(i + 1).drop_last() =~= all.take(i as int));
            assert(all.take(i + 1).last() == parts@[i as int].view());
            lemma_size_sum_take(all, i + 1);
        }
        match parts[i].size {
            None => {
                return None;
            },
            Some(n) => {
                if total > u64::MAX - n {
                    return None;
                }
                total = total + n;
            },
        }
        i = i + 1;
    }
    assert(all.take(i as int) =~= all);
    Some(total)
}

/// The search for the media playlist behind an address.
pub struct PlanSearch {
    /// Address of the next playlist.
    pub cur: String,
    /// The master playlists so far.
    pub chain: Vec<String>,
    /// Playlists read so far.
    pub hops: usize,
    /// Bits per second of the variant that was chosen last; zero if it states none.
    pub bandwidth: u64,
    /// Playing times of the segments in milliseconds, once the media playlist is read.
    pub durations: Vec<u64>,
}

/// The address that references in a playlist are relative to: where it was found, else
/// where it was asked for.
pub open spec fn base_of(final_url: Seq<char>, cur: Seq<char>) -> Result<Seq<char>, Seq<char>> {
    match url_parsed(final_url) {
        Ok(u) => Ok(u),
        Err(_) => url_parsed(cur),
    }
}

/// A protocol error with this message.
pub open spec fn is_protocol(e: HttpError, m: Seq<char>) -> bool {
    e is Protocol && e->Protocol_0@ == m
}

impl PlanSearch {
    /// A search that begins at `url`.
    pub fn new(url: &str) -> (r: Self)
        ensures
            r.cur@ == url@,
            r.chain@.len() == 0,
            r.hops == 0,
            r.bandwidth == 0,
            r.durations@.len() == 0,
    {
        PlanSearch {
            cur: url.to_owned(),
            chain: Vec::new(),
            hops: 0,
            bandwidth: 0,
            durations: Vec::new(),
        }
    }

    /// The size that a plan of this search will have: the known one, else the likely one
    /// by bandwidth and playing time.
    pub fn expected_total(&self, plan: &PlaylistPlan) -> (r: Option<u64>)
        ensures
            r == match plan.total {
                Some(n) => Some(n),
                None => estimated(self.bandwidth, self.durations@),
            },
    {
        match plan.total {
            Some(n) => Some(n),
            None => estimate_total(self.bandwidth, &self.durations),
        }
    }

    /// What is asked for next, or why nothing is.
    pub open spec fn asks(&self, r: Result<String, HttpError>) -> bool {
        &&& self.hops < MAX_VARIANT_HOPS ==> r is Ok && r->Ok_0@ == self.cur@
        &&& self.hops >= MAX_VARIANT_HOPS ==> r is Err && is_protocol(
            r->Err_0,
            "播放列表层级过深（主清单嵌套超过 3 层）"@,
        )
    }

    /// The playlist to read next; too many steps are an error.
    pub fn next_request(&self) -> (r: Result<String, HttpError>)
        ensures
            self.asks(r),
    {
        if self.hops < MAX_VARIANT_HOPS {
            Ok(self.cur.clone())
        } else {
            Err(HttpError::Protocol("播放列表层级过深（主清单嵌套超过 3 层）".to_owned()))
        }
    }

    /// What the search does with a playlist, once the base address is known.
    pub open spec fn reads(
        &self,
        text: Seq<char>,
        final_url: Seq<char>,
        base: Seq<char>,
        prefer_worst: bool,
        after: &PlanSearch,
        r: Result<Option<PlaylistPlan>, HttpError>,
    ) -> bool {
        if is_master_text(text) {
            let vs = variants_of(text, base);
            if vs.len() == 0 {
                &&& r is Err
                &&& is_protocol(r->Err_0, "主清单中没有可用的码率变体"@)
                &&& *after == *self
            } else {
                &&& r is Ok
                &&& r->Ok_0 is None
                &&& exists|i: int| #[trigger]
                    is_choice(vs, prefer_worst, i) && after.cur@ == vs[i].url && after.bandwidth
                        == vs[i].bandwidth
                &&& after.durations == self.durations
                &&& string_texts(after.chain@) == string_texts(self.chain@).push(self.cur@)
                &&& after.hops == self.hops + 1
            }
        } else {
            match media_of(text, base) {
                Err(m) => r is Err && is_protocol(r->Err_0, m) && *after == *self,
                Ok(st) => {
                    let n = st.segments.len() + if st.init is Some { 1int } else { 0int };
                    if n == 0 {
                        r is Err && is_protocol(r->Err_0, "播放列表中没有可下载的分片"@) && *after == *self
                    } else {
                        &&& *after == (PlanSearch { durations: after.durations, ..*self })
                        &&& as_ints(after.durations@) == durations_of(text)
                        &&& r is Ok
                        &&& r->Ok_0 is Some
                        &&& ({
                            let p = r->Ok_0->0;
                            &&& p.source@ == final_url
                            &&& string_texts(p.chain@) == string_texts(self.chain@)
                            &&& segment_option(p.init) == st.init
                            &&& segment_views(p.segments@) == st.segments
                            &&& p.live == !st.endlist
                            &&& p.fmp4 == (st.init is Some || any_mp4(st.segments))
                            &&& p.total is None
                        })
                    }
                },
            }
        }
    }

    /// Reads one playlist of the search: a master playlist leads on to its best variant,
    /// a media playlist gives the plan.
    pub fn on_manifest(&mut self, text: &str, final_url: &str, prefer_worst: bool) -> (r: Result<
        Option<PlaylistPlan>,
        HttpError,
    >)
        requires
            old(self).hops < MAX_VARIANT_HOPS,
        ensures
            if !is_manifest(text@) {
                r == Err::<Option<PlaylistPlan>, HttpError>(HttpError::NotPlaylist) && *final(self) == *old(
                    self,
                )
            } else {
                match base_of(final_url@, old(self).cur@) {
                    Err(m) => r is Err && is_protocol(r->Err_0, "清单地址非法: "@ + m) && *final(self)
                        == *old(self),
                    Ok(base) => old(self).reads(
                        text@,
                        final_url@,
                        base,
                        prefer_worst,
                        final(self),
                        r,
                    ),
                }
            },
    {
        if !looks_like_manifest(text) {
            return Err(HttpError::NotPlaylist);
        }
        let base: Result<String, String> = match parse_url(final_url) {
            Ok(u) => Ok(u),
            Err(_) => parse_url(self.cur.as_str()),
        };
        match base {
            Err(e) => Err(HttpError::Protocol(joined("清单地址非法: ", e.as_str()))),
            Ok(b) => self.read_with_base(text, final_url, b.as_str(), prefer_worst),
        }
    }

    /// Reads one playlist of the search, given the address its references are relative to.
    pub fn read_with_base(&mut self, text: &str, final_url: &str, base: &str, prefer_worst: bool) -> (r:
        Result<Option<PlaylistPlan>, HttpError>)
        requires
            old(self).hops < MAX_VARIANT_HOPS,
        ensures
            old(self).reads(text@, final_url@, base@, prefer_worst, final(self), r),
    {
        if is_master(text) {
            let variants = parse_variants(text, base);
            assert(variant_views(variants@).len() == variants@.len());
            match choose_variant(&variants, prefer_worst) {
                None => Err(HttpError::Protocol("主清单中没有可用的码率变体".to_owned())),
                Some(i) => {
                    let ghost vs = variant_views(variants@);
                    let ghost chain = string_texts(self.chain@);
                    let ghost cur = self.cur@;
                    let next = variants[i].url.clone();
                    assert(vs[i as int] == variants@[i as int].view());
                    self.bandwidth = variants[i].bandwidth;
                    self.chain.push(self.cur.clone());
                    self.cur = next;
                    self.hops = self.hops + 1;
                    assert(string_texts(self.chain@) =~= chain.push(cur));
                    assert(is_choice(vs, prefer_worst, i as int));
                    Ok(None)
                },
            }
        } else {
            match parse_media(text, base) {
                Err(e) => Err(HttpError::Protocol(e)),
                Ok(m) => {
                    let fmp4: bool = m.init.is_some() || has_mp4(&m.segments);
                    if m.init.is_none() && m.segments.len() == 0 {
                        assert(segment_views(m.segments@).len() == 0);
                        return Err(HttpError::Protocol("播放列表中没有可下载的分片".to_owned()));
                    }
                    assert(segment_views(m.segments@).len() == m.segments@.len());
                    let plan = PlaylistPlan {
                        source: final_url.to_owned(),
                        chain: copy_strings(&self.chain),
                        init: m.init,
                        segments: m.segments,
                        live: m.live,
                        fmp4,
                        total: None,
                    };
                    self.durations = parse_durations(text);
                    Ok(Some(plan))
                },
            }
        }
    }
}

/// Copies some strings.
pub fn copy_strings(v: &Vec<String>) -> (r: Vec<String>)
    ensures
        string_texts(r@) == string_texts(v@),
        r@.len() == v@.len(),
{
    let mut out: Vec<String> = Vec::new();
    let mut i: usize = 0;
    while i < v.len()
        invariant
            i <= v@.len(),
            out@.len() == i,
            forall|j: int| 0 <= j < i ==> (#[trigger] out@[j])@ == v@[j]@,
        decreases v@.len() - i,
    {
        out.push(v[i].clone());
        i = i + 1;
    }
    assert(string_texts(out@) =~= string_texts(v@));
    out
}

// ---------------------------------------------------------------------------
// Sizes
// ---------------------------------------------------------------------------

/// The segments whose size is unknown, in order.
pub open spec fn unknown_ids(segs: Seq<SegmentView>) -> Seq<usize>
    decreases segs.len(),
{
    if segs.len() == 0 {
        Seq::empty()
    } else {
        let rest = unknown_ids(segs.drop_last());
        if segs.last().size is None { rest.push((segs.len() - 1) as usize) } else { rest }
    }
}

/// Lists the segments whose size is unknown.
pub fn unknown_sizes(plan: &PlaylistPlan) -> (r: Vec<usize>)
    ensures
        r@ == unknown_ids(segment_views(plan.segments@)),
        forall|k: int| 0 <= k < r@.len() ==> #[trigger] r@[k] < plan.segments@.len(),
{
    let ghost all = segment_views(plan.segments@);
    let mut out: Vec<usize> = Vec::new();
    let mut i: usize = 0;
    assert(all.take(0) =~= Seq::<SegmentView>::empty());
    while i < plan.segments.len()
        invariant
            i <= plan.segments@.len(),
            all == segment_views(plan.segments@),
            out@ == unknown_ids(all.take(i as int)),
            forall|k: int| 0 <= k < out@.len() ==> #[trigger] out@[k] < i,
        decreases plan.segments@.len() - i,
    {
        proof {
            assert(all.take(i + 1).drop_last() =~= all.take(i as int));
            assert(all.take(i + 1).last() == plan.segments@[i as int].view());
        }
        if plan.segments[i].size.is_none() {
            out.push(i);
        }
        i = i + 1;
    }
    assert(all.take(i as int) =~= all);
    out
}

/// Whether the initialisation part has to be probed for its size.
pub fn init_needs_probe(plan: &PlaylistPlan) -> (r: bool)
    ensures
        r == (plan.init is Some && plan.init->0.size is None),
{
    match &plan.init {
        Some(i) => i.size.is_none(),
        None => false,
    }
}

/// Whether the answer to a probe tells that the server ignores ranges. A probe is the
/// pair of whether ranges are served and the size, or none if it failed.
pub open spec fn ignores_range(probe: Option<(bool, Option<u64>)>) -> bool {
    probe is Some && !(probe->0).0
}

/// Whether probing goes on after this answer: a server that ignores ranges would send
/// every segment as a whole, so it is asked no further.
pub fn goes_on_probing(probe: Option<(bool, Option<u64>)>) -> (r: bool)
    ensures
        r == !ignores_range(probe),
{
    match probe {
        Some(p) => p.0,
        None => true,
    }
}

/// Books the probe of the initialisation part: whether the server serves ranges, and
/// the size. A server without ranges ends all probing and leaves the total unknown; a
/// failed probe changes nothing.
pub fn on_init_probe(plan: &mut PlaylistPlan, probe: Option<(bool, Option<u64>)>) -> (go_on: bool)
    requires
        old(plan).init is Some,
    ensures
        go_on == !ignores_range(probe),
        final(plan).init is Some,
        final(plan).init->0 == (Segment {
            size: if probe is Some && (probe->0).0 { (probe->0).1 } else { old(plan).init->0.size },
            ..old(plan).init->0
        }),
        final(plan).source == old(plan).source,
        final(plan).chain == old(plan).chain,
        final(plan).segments == old(plan).segments,
        final(plan).live == old(plan).live,
        final(plan).fmp4 == old(plan).fmp4,
        final(plan).total == if ignores_range(probe) { None } else { old(plan).total },
{
    match probe {
        None => true,
        Some(p) => {
            if !p.0 {
                plan.total = None;
                return false;
            }
            match &mut plan.init {
                Some(i) => {
                    i.size = p.1;
                },
                None => {},
            }
            true
        },
    }
}

/// Whether so many unknown sizes are worth asking for.
pub open spec fn is_worth_probing(unknown: int) -> bool {
    0 < unknown <= SIZE_PROBE_MAX_SEGMENTS
}

/// Whether the segments are probed at all: some are unknown, but not too many.
pub fn worth_probing(unknown: usize) -> (r: bool)
    ensures
        r == is_worth_probing(unknown as int),
{
    unknown > 0 && unknown <= SIZE_PROBE_MAX_SEGMENTS
}

/// Probes at a time.
pub open spec fn probes_at_a_time(concurrency: usize) -> usize {
    if concurrency < 1 {
        1
    } else if concurrency > SIZE_PROBE_CONCURRENCY {
        SIZE_PROBE_CONCURRENCY
    } else {
        concurrency
    }
}

/// Probes at a time.
pub fn probe_concurrency(concurrency: usize) -> (r: usize)
    ensures
        r == probes_at_a_time(concurrency),
{
    if concurrency < 1 {
        1
    } else if concurrency > SIZE_PROBE_CONCURRENCY {
        SIZE_PROBE_CONCURRENCY
    } else {
        concurrency
    }
}

/// A probed size; zero counts as unknown.
pub open spec fn probed(size: Option<u64>) -> Option<u64> {
    if size is Some && size->0 > 0 { size } else { None }
}

/// The segments after the sizes `sizes` were found for those listed in `ids`.
pub open spec fn sized(segs: Seq<SegmentView>, ids: Seq<usize>, sizes: Seq<Option<u64>>, k: int) -> Seq<
    SegmentView,
>
    decreases k,
{
    if k <= 0 {
        segs
    } else {
        let s = sized(segs, ids, sizes, k - 1);
        let at = ids[k - 1] as int;
        s.update(at, SegmentView { size: probed(sizes[k - 1]), ..s[at] })
    }
}

/// Enters probed sizes and adds everything up.
fn apply_sizes(plan: &mut PlaylistPlan, ids: &Vec<usize>, sizes: &Vec<Option<u64>>)
    requires
        ids@.len() == sizes@.len(),
        forall|k: int| 0 <= k < ids@.len() ==> #[trigger] ids@[k] < old(plan).segments@.len(),
    ensures
        segment_views(final(plan).segments@) == sized(
            segment_views(old(plan).segments@),
            ids@,
            sizes@,
            ids@.len() as int,
        ),
        final(plan).source == old(plan).source,
        final(plan).chain == old(plan).chain,
        final(plan).init == old(plan).init,
        final(plan).live == old(plan).live,
        final(plan).fmp4 == old(plan).fmp4,
        final(plan).total == plan_size(final(plan).parts()),
{
    let ghost start = *plan;
    let ghost segs = segment_views(plan.segments@);
    let mut k: usize = 0;
    while k < ids.len()
        invariant
            k <= ids@.len(),
            ids@.len() == sizes@.len(),
            start == *old(plan),
            segs == segment_views(start.segments@),
            plan.segments@.len() == start.segments@.len(),
            forall|j: int| 0 <= j < ids@.len() ==> #[trigger] ids@[j] < start.segments@.len(),
            segment_views(plan.segments@) == sized(segs, ids@, sizes@, k as int),
            plan.source == start.source,
            plan.chain == start.chain,
            plan.init == start.init,
            plan.live == start.live,
            plan.fmp4 == start.fmp4,
        decreases ids@.len() - k,
    {
        let at: usize = ids[k];
        assert(ids@[k as int] < start.segments@.len());
        let size: Option<u64> = match sizes[k] {
            Some(n) => if n > 0 {
                Some(n)
            } else {
                None
            },
            None => None,
        };
        let ghost before = segment_views(plan.segments@);
        let s = &mut plan.segments[at];
        s.size = size;
        proof {
            let after = sized(segs, ids@, sizes@, k + 1);
            assert(segment_views(plan.segments@) =~= after);
        }
        k = k + 1;
    }
    plan.total = sum_sizes(plan);
}

/// Whether some answer tells that the server ignores ranges.
pub open spec fn some_ignores(probes: Seq<Option<(bool, Option<u64>)>>) -> bool {
    exists|k: int| 0 <= k < probes.len() && ignores_range(#[trigger] probes[k])
}

/// The size that an answer names.
pub open spec fn size_named(probe: Option<(bool, Option<u64>)>) -> Option<u64> {
    match probe {
        Some(p) => p.1,
        None => None,
    }
}

/// The sizes that answers name.
pub open spec fn sizes_named(probes: Seq<Option<(bool, Option<u64>)>>) -> Seq<Option<u64>> {
    Seq::new(probes.len(), |k: int| size_named(probes[k]))
}

/// A plan before and after the probes of the segments listed in `ids` were booked: if a
/// server ignored ranges, the segments stay and the total is unknown; else every size is
/// entered and all are added up.
pub open spec fn segments_probed(
    before: PlaylistPlan,
    after: PlaylistPlan,
    ids: Seq<usize>,
    probes: Seq<Option<(bool, Option<u64>)>>,
) -> bool {
    &&& if some_ignores(probes) {
        &&& after.segments == before.segments
        &&& after.total is None
    } else {
        &&& segment_views(after.segments@) == sized(
            segment_views(before.segments@),
            ids,
            sizes_named(probes),
            ids.len() as int,
        )
        &&& after.total == plan_size(after.parts())
    }
    &&& after.source == before.source
    &&& after.chain == before.chain
    &&& after.init == before.init
    &&& after.live == before.live
    &&& after.fmp4 == before.fmp4
}

/// Books the probes of the segments listed in `ids`. If a server ignored ranges, the
/// total is unknown and the segments stay as they are; probing ended there, so that
/// later answers may be missing. Else every size is entered, and all are added up.
pub fn on_segment_probes(
    plan: &mut PlaylistPlan,
    ids: &Vec<usize>,
    probes: &Vec<Option<(bool, Option<u64>)>>,
)
    requires
        ids@.len() == probes@.len() || some_ignores(probes@),
        forall|k: int| 0 <= k < ids@.len() ==> #[trigger] ids@[k] < old(plan).segments@.len(),
    ensures
        segments_probed(*old(plan), *final(plan), ids@, probes@),
{
    let mut sizes: Vec<Option<u64>> = Vec::new();
    let mut k: usize = 0;
    while k < probes.len()
        invariant
            k <= probes@.len(),
            sizes@ == sizes_named(probes@.take(k as int)),
            forall|j: int| 0 <= j < k ==> !ignores_range(#[trigger] probes@[j]),
            *plan == *old(plan),
        decreases probes@.len() - k,
    {
        let probe = probes[k];
        if !goes_on_probing(probe) {
            assert(ignores_range(probes@[k as int]));
            plan.total = None;
            return;
        }
        let size: Option<u64> = match probe {
            Some(p) => p.1,
            None => None,
        };
        sizes.push(size);
        assert(sizes@ =~= sizes_named(probes@.take(k + 1)));
        k = k + 1;
    }
    assert(probes@.take(k as int) =~= probes@);
    apply_sizes(plan, ids, &sizes);
}

/// Whether the initialisation part of a plan is probed.
pub open spec fn asks_init(plan: PlaylistPlan) -> bool {
    plan.init is Some && plan.init->0.size is None
}

/// A plan after its initialisation part was probed by a server that serves ranges.
pub open spec fn init_probed(plan: PlaylistPlan, probe: Option<(bool, Option<u64>)>) -> PlaylistPlan {
    if asks_init(plan) && probe is Some {
        PlaylistPlan { init: Some(Segment { size: (probe->0).1, ..plan.init->0 }), ..plan }
    } else {
        plan
    }
}

/// Books all probes of a plan: that of the initialisation part, if its size is unknown,
/// and those of the segments of unknown size, unless they are too many. The first server
/// that ignores ranges ends the probing, and the total is then unknown.
pub fn probe_segment_sizes(
    plan: &mut PlaylistPlan,
    init: Option<(bool, Option<u64>)>,
    probes: &Vec<Option<(bool, Option<u64>)>>,
)
    requires
        asks_init(*old(plan)) && ignores_range(init) || ({
            let n = unknown_ids(segment_views(old(plan).segments@)).len();
            0 < n <= SIZE_PROBE_MAX_SEGMENTS ==> n == probes@.len() || some_ignores(probes@)
        }),
    ensures
        ({
            let ids = unknown_ids(segment_views(old(plan).segments@));
            let mid = init_probed(*old(plan), init);
            if asks_init(*old(plan)) && ignores_range(init) {
                *final(plan) == (PlaylistPlan { total: None, ..*old(plan) })
            } else if 0 < ids.len() <= SIZE_PROBE_MAX_SEGMENTS {
                segments_probed(mid, *final(plan), ids, probes@)
            } else {
                *final(plan) == (PlaylistPlan { total: plan_size(mid.parts()), ..mid })
            }
        }),
{
    if init_needs_probe(plan) {
        if !on_init_probe(plan, init) {
            return;
        }
    }
    let ids = unknown_sizes(plan);
    if worth_probing(ids.len()) {
        on_segment_probes(plan, &ids, probes);
    } else {
        plan.total = sum_sizes(plan);
    }
}

/// One segment whose server ignores ranges leaves the total of a playlist unknown,
/// whatever lengths were named.
pub proof fn law_no_ranges_no_total(
    before: PlaylistPlan,
    after: PlaylistPlan,
    ids: Seq<usize>,
    probes: Seq<Option<(bool, Option<u64>)>>,
    k: int,
)
    requires
        0 <= k < probes.len(),
        ignores_range(probes[k]),
        segments_probed(before, after, ids, probes),
    ensures
        after.total is None,
        after.segments == before.segments,
{
}

// ---------------------------------------------------------------------------
// Control file
// ---------------------------------------------------------------------------

/// Control file of a playlist download.
pub struct PlaylistCtrl {
    /// Kind of the file.
    pub kind: String,
    pub v: u32,
    /// Fingerprint of the playlist.
    pub fp: String,
    pub url: String,
    /// Number of parts.
    pub segs: usize,
    /// Whole parts on disk.
    pub prefix: usize,
    /// Bytes of the whole parts.
    pub bytes: u64,
}

/// Offset and length as text.
pub open spec fn range_text(r: Option<(u64, u64)>) -> Seq<char> {
    match r {
        Some(p) => decimal(p.0 as nat) + ":"@ + decimal(p.1 as nat),
        None => Seq::empty(),
    }
}

/// What the fingerprint takes of a part.
pub open spec fn part_text(s: SegmentView, with_key: bool) -> Seq<char> {
    s.url + range_text(s.range) + if with_key && s.key is Some { s.key->0.url } else { Seq::empty() }
}

/// What the fingerprint takes of the segments.
pub open spec fn segments_text(segs: Seq<SegmentView>) -> Seq<char>
    decreases segs.len(),
{
    if segs.len() == 0 {
        Seq::empty()
    } else {
        segments_text(segs.drop_last()) + part_text(segs.last(), true)
    }
}

/// What the fingerprint is taken of: addresses, ranges and key addresses in order.
pub open spec fn plan_text(init: Option<SegmentView>, segs: Seq<SegmentView>) -> Seq<char> {
    match init {
        Some(i) => part_text(i, false) + segments_text(segs),
        None => segments_text(segs),
    }
}

/// The fingerprint of a text: the first eight bytes of its digest in hexadecimal digits.
pub open spec fn text_mark(text: Seq<char>) -> Seq<char> {
    hex_text(sha256_digest(vstd::utf8::encode_utf8(text)).take(8))
}

/// The fingerprint of a plan.
pub open spec fn plan_mark(plan: &PlaylistPlan) -> Seq<char> {
    text_mark(plan_text(segment_option(plan.init), segment_views(plan.segments@)))
}

fn push_part(v: &mut Vec<char>, s: &Segment, with_key: bool)
    ensures
        final(v)@ == old(v)@ + part_text(s.view(), with_key),
{
    let ghost start = v@;
    push_str(v, s.url.as_str());
    if let Some(r) = s.range {
        let a = dec_chars(r.0);
        push_all(v, &a);
        push_str(v, ":");
        let b = dec_chars(r.1);
        push_all(v, &b);
    }
    assert(v@ =~= start + (s.url@ + range_text(s.range)));
    if with_key {
        if let Some(k) = &s.key {
            push_str(v, k.url.as_str());
        }
    }
    assert(v@ =~= start + part_text(s.view(), with_key));
}

/// The fingerprint of a plan: addresses, ranges and key addresses.
pub fn fingerprint(plan: &PlaylistPlan) -> (r: String)
    ensures
        r@ == plan_mark(plan),
{
    let mut v: Vec<char> = Vec::new();
    if let Some(i) = &plan.init {
        push_part(&mut v, i, false);
    }
    let ghost head = v@;
    let ghost all = segment_views(plan.segments@);
    let mut i: usize = 0;
    assert(all.take(0) =~= Seq::<SegmentView>::empty());
    assert(head + segments_text(all.take(0)) =~= head);
    while i < plan.segments.len()
        invariant
            i <= plan.segments@.len(),
            all == segment_views(plan.segments@),
            v@ == head + segments_text(all.take(i as int)),
        decreases plan.segments@.len() - i,
    {
        proof {
            assert(all.take(i + 1).drop_last() =~= all.take(i as int));
            assert(all.take(i + 1).last() == plan.segments@[i as int].view());
        }
        let ghost before = v@;
        push_part(&mut v, &plan.segments[i], true);
        assert(v@ =~= head + segments_text(all.take(i + 1)));
        i = i + 1;
    }
    proof {
        assert(all.take(i as int) =~= all);
        let text = plan_text(segment_option(plan.init), all);
        assert(v@ =~= text) by {
            if plan.init is Some {
                assert(head =~= part_text(plan.init->0.view(), false));
            } else {
                assert(head =~= Seq::<char>::empty());
            }
        }
    }
    let text = string_of(&v);
    let digest = sha256(text.as_str().as_bytes());
    let mut eight: Vec<u8> = Vec::new();
    let mut k: usize = 0;
    while k < 8
        invariant
            k <= 8,
            digest@.len() == 32,
            eight@ == digest@.take(k as int),
        decreases 8 - k,
    {
        eight.push(digest[k]);
        assert(digest@.take(k + 1) =~= digest@.take(k as int).push(digest@[k as int]));
        k = k + 1;
    }
    hex_encode(&eight)
}

/// Whether a control file belongs to this plan.
pub open spec fn ctrl_matches(c: PlaylistCtrl, plan: &PlaylistPlan) -> bool {
    &&& c.kind@ == "hls-playlist"@
    &&& c.v == PLAYLIST_CTRL_VERSION
    &&& c.fp@ == plan_mark(plan)
    &&& c.url@ == plan.source@
    &&& c.segs == plan.count()
}

/// A control file of another plan counts as none.
pub fn load_ctrl(parsed: Option<PlaylistCtrl>, plan: &PlaylistPlan) -> (r: Option<PlaylistCtrl>)
    requires
        plan.segments@.len() < usize::MAX,
    ensures
        match parsed {
            Some(c) if ctrl_matches(c, plan) => r == Some(c),
            _ => r is None,
        },
{
    match parsed {
        None => None,
        Some(c) => {
            if !same_str(c.kind.as_str(), "hls-playlist") || c.v != PLAYLIST_CTRL_VERSION {
                return None;
            }
            let fp = fingerprint(plan);
            if !same_str(c.fp.as_str(), fp.as_str()) || !same_str(c.url.as_str(), plan.source.as_str())
                || c.segs != plan.segment_count() {
                return None;
            }
            Some(c)
        },
    }
}

/// Where a download goes on: bytes and parts on disk. Without a matching control file,
/// or with a file that is too short, it starts anew.
pub open spec fn resumes_at(c: Option<PlaylistCtrl>, file_len: Option<u64>, plan: &PlaylistPlan) -> (
    u64,
    usize,
) {
    if c is Some && ctrl_matches(c->0, plan) && file_len is Some && file_len->0 >= c->0.bytes
        && c->0.prefix <= plan.count() {
        (c->0.bytes, c->0.prefix)
    } else {
        (0, 0)
    }
}

/// Where a download goes on.
pub fn resume_point(ctrl: Option<PlaylistCtrl>, file_len: Option<u64>, plan: &PlaylistPlan) -> (r: (
    u64,
    usize,
))
    requires
        plan.segments@.len() < usize::MAX,
    ensures
        r == resumes_at(ctrl, file_len, plan),
{
    match load_ctrl(ctrl, plan) {
        None => (0, 0),
        Some(c) => match file_len {
            None => (0, 0),
            Some(n) => if n >= c.bytes && c.prefix <= plan.segment_count() {
                (c.bytes, c.prefix)
            } else {
                (0, 0)
            },
        },
    }
}

/// How many parts a run that resumes there does not ask for again. Without any byte none
/// counts.
pub open spec fn joined_parts(resume: (u64, usize)) -> usize {
    if resume.0 == 0 { 0 } else { resume.1 }
}

/// Bytes of part `i` that its own file of `len` bytes gives: all of them, if the control
/// file is one of this plan, the part is not joined yet, and it cannot be larger.
pub open spec fn kept_of(plan: &PlaylistPlan, of_plan: bool, joined: int, i: int, len: u64) -> u64 {
    let size = plan.parts()[i].size;
    if of_plan && joined <= i && (size is None || len <= size->0) {
        len
    } else {
        0
    }
}

/// Bytes of each part that lie in files of their own, given the lengths of these files.
pub open spec fn kept_parts(
    c: Option<PlaylistCtrl>,
    file_len: Option<u64>,
    found: Seq<u64>,
    plan: &PlaylistPlan,
) -> Seq<u64> {
    let of_plan = c is Some && ctrl_matches(c->0, plan);
    let joined = joined_parts(resumes_at(c, file_len, plan)) as int;
    Seq::new(
        plan.count() as nat,
        |i: int| if i < found.len() { kept_of(plan, of_plan, joined, i, found[i]) } else { 0 },
    )
}

/// Bytes of each part that need not be fetched again: what lies in files of their own. If
/// all together are more than can be counted, none is used.
pub open spec fn held_at(
    c: Option<PlaylistCtrl>,
    file_len: Option<u64>,
    found: Seq<u64>,
    plan: &PlaylistPlan,
) -> Seq<u64> {
    let kept = kept_parts(c, file_len, found, plan);
    if resumes_at(c, file_len, plan).0 + sum_of(kept) <= u64::MAX {
        kept
    } else {
        Seq::new(plan.count() as nat, |i: int| 0u64)
    }
}

/// Bytes of each part that need not be fetched again. `found` holds the lengths of the
/// parts' own files, zero where there is none.
pub fn resume_held(
    ctrl: Option<PlaylistCtrl>,
    file_len: Option<u64>,
    found: &Vec<u64>,
    plan: &PlaylistPlan,
) -> (r: Vec<u64>)
    requires
        plan.segments@.len() < usize::MAX,
    ensures
        r@ == held_at(ctrl, file_len, found@, plan),
        r@.len() == plan.count(),
        resumes_at(ctrl, file_len, plan).0 + sum_of(r@) <= u64::MAX,
        forall|i: int|
            0 <= i < joined_parts(resumes_at(ctrl, file_len, plan)) && i < r@.len() ==> #[trigger] r@[i]
                == 0,
{
    let ghost c = ctrl;
    let known = load_ctrl(ctrl, plan);
    let of_plan: bool = known.is_some();
    let resume: (u64, usize) = resume_point(known, file_len, plan);
    assert(resume == resumes_at(c, file_len, plan));
    let joined: usize = if resume.0 == 0 { 0 } else { resume.1 };
    let parts = plan.all_parts();
    let n: usize = parts.len();
    assert(segment_views(parts@).len() == n);
    let ghost kept = kept_parts(c, file_len, found@, plan);
    let mut out: Vec<u64> = Vec::new();
    let mut sum: u64 = resume.0;
    let mut fits: bool = true;
    let mut i: usize = 0;
    assert(kept.take(0) =~= Seq::<u64>::empty());
    while i < n
        invariant
            i <= n,
            n == parts@.len(),
            n == plan.count(),
            segment_views(parts@) == plan.parts(),
            of_plan == (c is Some && ctrl_matches(c->0, plan)),
            resume == resumes_at(c, file_len, plan),
            joined == joined_parts(resume),
            kept == kept_parts(c, file_len, found@, plan),
            out@ == kept.take(i as int),
            fits == (resume.0 + sum_of(kept.take(i as int)) <= u64::MAX),
            fits ==> sum == resume.0 + sum_of(kept.take(i as int)),
        decreases n - i,
    {
        let len: u64 = if i < found.len() { found[i] } else { 0 };
        assert(plan.parts()[i as int] == parts@[i as int].view());
        let room: bool = match parts[i].size {
            None => true,
            Some(most) => len <= most,
        };
        let x: u64 = if of_plan && joined <= i && room { len } else { 0 };
        assert(x == kept[i as int]);
        out.push(x);
        proof {
            assert(kept.take(i + 1) =~= kept.take(i as int).push(x));
            assert(kept.take(i + 1).drop_last() =~= kept.take(i as int));
        }
        if fits && x <= u64::MAX - sum {
            sum = sum + x;
        } else {
            fits = false;
        }
        i = i + 1;
    }
    assert(kept.take(i as int) =~= kept);
    if fits {
        return out;
    }
    let mut none: Vec<u64> = Vec::new();
    while none.len() < n
        invariant
            none@.len() <= n,
            forall|k: int| 0 <= k < none@.len() ==> #[trigger] none@[k] == 0,
        decreases n - none@.len(),
    {
        none.push(0);
    }
    proof {
        assert(none@ =~= held_at(c, file_len, found@, plan));
        lemma_sum_zero(none@);
    }
    none
}

// ---------------------------------------------------------------------------
// Segments
// ---------------------------------------------------------------------------

/// Decrypts a segment. A key of the wrong length, data that is not whole blocks and
/// malformed padding are errors; no data gives no data.
pub fn decrypt_segment(key: &Vec<u8>, iv: &[u8; 16], data: &Vec<u8>) -> (r: Result<Vec<u8>, HttpError>)
    ensures
        if key@.len() != 16 {
            r is Err && is_protocol(
                r->Err_0,
                "AES-128 密钥长度应为 16 字节，实际 "@ + decimal(key@.len()),
            )
        } else if data@.len() == 0 {
            r is Ok && r->Ok_0@.len() == 0
        } else if data@.len() % 16 != 0 {
            r is Err && is_protocol(
                r->Err_0,
                "加密分片长度 "@ + decimal(data@.len()) + " 不是 16 的整数倍"@,
            )
        } else {
            match aes128_cbc_plain(key@, iv@, data@) {
                Some(p) => r is Ok && r->Ok_0@ == p,
                None => r is Err && is_protocol(r->Err_0, "AES-128 解密失败: Unpad Error"@),
            }
        },
{
    if key.len() != 16 {
        let mut m = chars_of("AES-128 密钥长度应为 16 字节，实际 ");
        let n = dec_chars(key.len() as u64);
        push_all(&mut m, &n);
        return Err(HttpError::Protocol(string_of(&m)));
    }
    if data.len() == 0 {
        return Ok(Vec::new());
    }
    if data.len() % 16 != 0 {
        let mut m = chars_of("加密分片长度 ");
        let n = dec_chars(data.len() as u64);
        push_all(&mut m, &n);
        push_str(&mut m, " 不是 16 的整数倍");
        return Err(HttpError::Protocol(string_of(&m)));
    }
    let plain = aes128_cbc_decrypt(key.as_slice(), iv, data.as_slice());
    settle_plain(plain)
}

/// The result of decrypting, given what the cipher returned.
pub fn settle_plain(plain: Option<Vec<u8>>) -> (r: Result<Vec<u8>, HttpError>)
    ensures
        match plain {
            Some(p) => r == Ok::<Vec<u8>, HttpError>(p),
            None => r is Err && is_protocol(r->Err_0, "AES-128 解密失败: Unpad Error"@),
        },
{
    match plain {
        Some(p) => Ok(p),
        None => Err(HttpError::Protocol("AES-128 解密失败: Unpad Error".to_owned())),
    }
}

/// First and last byte of a segment's range request.
pub fn segment_range(range: Option<(u64, u64)>) -> (r: Option<(u64, u64)>)
    ensures
        r == bytes_of(range),
{
    match range {
        None => None,
        Some(p) => {
            let rest: u64 = if p.1 > 0 { p.1 - 1 } else { 0 };
            Some((p.0, p.0.wrapping_add(rest)))
        },
    }
}

/// First and last byte of the request for what is missing of a segment of which `got`
/// bytes are there; no last byte means up to the end, none at all the whole address.
pub fn part_range(range: Option<(u64, u64)>, got: u64) -> (r: Option<(u64, Option<u64>)>)
    ensures
        r == rest_of(range, got),
{
    match segment_range(range) {
        Some(p) => Some((p.0.wrapping_add(got), Some(p.1))),
        None => if got > 0 {
            Some((got, None))
        } else {
            None
        },
    }
}

/// What to make of the answer to a request for the rest of a segment.
#[derive(Debug, Clone, Copy, PartialEq, Eq, Structural)]
pub enum PartAnswer {
    /// The body follows; its first `skip` bytes are there already.
    Body { skip: u64 },
    /// Nothing was missing.
    Complete,
    /// The body is of no use.
    Unusable,
}

/// What to make of an answer with this status when `got` bytes of the segment are there:
/// a server that ignores the range sends everything again, one that has nothing left says
/// that the range is out of bounds. Everything again is of no use if the segment is but a
/// range of the address.
pub fn part_answer(range: Option<(u64, u64)>, got: u64, status: u16) -> (r: PartAnswer)
    ensures
        r == use_of(range, got, status),
{
    if got == 0 || status == 206 {
        PartAnswer::Body { skip: 0 }
    } else if range.is_some() {
        PartAnswer::Unusable
    } else if status == 416 {
        PartAnswer::Complete
    } else {
        PartAnswer::Body { skip: got }
    }
}

/// What is said of a body of `len` bytes where `expected` were announced.
pub open spec fn body_judged(expected: Option<u64>, len: u64) -> Result<(), HttpError> {
    if expected is Some && expected->0 != len {
        Err::<(), HttpError>(HttpError::ShortRead)
    } else {
        Ok::<(), HttpError>(())
    }
}

/// A body of another size than expected is a short read.
pub fn check_body(expected: Option<u64>, len: u64) -> (r: Result<(), HttpError>)
    ensures
        r == body_judged(expected, len),
{
    match expected {
        Some(n) => if n != len {
            Err(HttpError::ShortRead)
        } else {
            Ok(())
        },
        None => Ok(()),
    }
}

/// A key without content is an error.
pub fn check_key(key: Vec<u8>) -> (r: Result<Vec<u8>, HttpError>)
    ensures
        key@.len() > 0 ==> r == Ok::<Vec<u8>, HttpError>(key),
        key@.len() == 0 ==> r is Err && is_protocol(r->Err_0, "密钥内容为空"@),
{
    if key.len() == 0 {
        Err(HttpError::Protocol("密钥内容为空".to_owned()))
    } else {
        Ok(key)
    }
}

/// What is said of a playlist of so many bytes.
pub open spec fn length_judged(len: int, r: Result<(), HttpError>) -> bool {
    &&& len <= MANIFEST_MAX_BYTES ==> r is Ok
    &&& len > MANIFEST_MAX_BYTES ==> r is Err && is_protocol(
        r->Err_0,
        "清单文件过大（>8MiB），已放弃"@,
    )
}

/// A playlist that grew too large is an error.
pub fn check_manifest_len(len: usize) -> (r: Result<(), HttpError>)
    ensures
        length_judged(len as int, r),
{
    if len > MANIFEST_MAX_BYTES {
        Err(HttpError::Protocol("清单文件过大（>8MiB），已放弃".to_owned()))
    } else {
        Ok(())
    }
}

/// How long to wait before the next attempt at a segment, in milliseconds; none if
/// there is none. Attempts are counted from one.
pub fn segment_retry(attempt: u32, retries: u32, retryable: bool) -> (r: Option<u64>)
    ensures
        r == retry_wait(attempt, retries, retryable),
{
    let most: u32 = if retries < 1 { 1 } else { retries };
    if retryable && attempt < most {
        Some(400 * attempt as u64)
    } else {
        None
    }
}

// ---------------------------------------------------------------------------
// The run
// ---------------------------------------------------------------------------

/// A playlist download in work.
pub struct PlaylistRun {
    pub fp: String,
    pub source: String,
    pub total_segments: usize,
    /// How fine the piece map is.
    pub min_split_size: u64,
    /// Parts joined to the product.
    pub written: usize,
    /// Bytes of the product; the next part is joined behind them.
    pub base: u64,
    /// Bytes of each part that lie in a file of its own.
    pub held: Vec<u64>,
    /// Whether each part is whole.
    pub whole: Vec<bool>,
    /// Bytes in all these files.
    pub spilled: u64,
    /// What is safe on disk: joined parts and their bytes.
    pub safe_parts: usize,
    pub bytes: u64,
    pub last_save: Option<u64>,
    pub stats: PlaylistStats,
    /// The piece map, once there is one.
    pub pieces: Option<PieceTrack>,
    /// How many bytes the piece map shows.
    pub mapped: u64,
}

/// How a playlist download begins.
pub struct PlaylistBegin {
    pub run: PlaylistRun,
    /// The length that the product is cut to; none means a new file.
    pub keep: Option<u64>,
    /// Write this control file before anything else: it ties the parts' own files to the
    /// plan.
    pub mark: PlaylistCtrl,
}

/// How a playlist download ends.
pub struct PlaylistEnd {
    pub result: Result<PlaylistDone, HttpError>,
    /// Write this control file.
    pub save: Option<PlaylistCtrl>,
    /// Remove the control file and the parts' own files.
    pub remove_ctrl: bool,
    /// The piece map of the finished file.
    pub pieces: Option<PieceTrack>,
}

/// The first `n` bytes of a file.
pub open spec fn first_bytes(n: int) -> spec_fn(int) -> bool {
    |p: int| 0 <= p < n
}

/// A piece map of a file of `total` bytes of which the first `done` are on disk. The
/// pieces are as fine as those of a split download.
pub fn prefix_pieces(total: u64, min_split_size: u64, done: u64) -> (r: PieceTrack)
    ensures
        r.wf(),
        r.total == total,
        r.piece_len == shown_piece_len(min_split_size, total),
        r.records(first_bytes(done as int)),
{
    let mut t = PieceTrack::new(total, display_piece_len(min_split_size, total));
    let ghost before = t;
    proof {
        lemma_new_records(&t, first_bytes(0));
    }
    t.add_range(0, done);
    proof {
        lemma_added_records(&before, &t, 0, done as int, first_bytes(0), first_bytes(done as int));
    }
    t
}

impl PlaylistRun {
    /// No more parts are joined than there are, no more are safe than are joined, no joined
    /// part has a file of its own, and the sums agree.
    pub open spec fn wf(&self) -> bool {
        &&& self.safe_parts <= self.written <= self.total_segments
        &&& self.written == 0 ==> self.base == 0
        &&& self.held@.len() == self.total_segments
        &&& self.whole@.len() == self.total_segments
        &&& forall|i: int| 0 <= i < self.written ==> #[trigger] self.held@[i] == 0
        &&& self.spilled == sum_of(self.held@)
        &&& self.base + self.spilled <= u64::MAX
        &&& self.pieces is Some ==> self.pieces->0.wf()
    }

    /// The piece map, if there is one, shows as many bytes as were on disk at most.
    pub open spec fn exact_pieces(&self) -> bool {
        self.pieces is Some ==> self.pieces->0.records(first_bytes(self.mapped as int))
    }

    /// Bytes on disk: those of the product and those of the parts' own files.
    pub open spec fn on_disk(&self) -> int {
        self.base + self.spilled
    }

    /// A control file of this run with these marks.
    pub open spec fn notes(&self, c: PlaylistCtrl, prefix: int, bytes: int) -> bool {
        &&& c.kind@ == "hls-playlist"@
        &&& c.v == PLAYLIST_CTRL_VERSION
        &&& c.fp@ == self.fp@
        &&& c.url@ == self.source@
        &&& c.segs == self.total_segments
        &&& c.prefix == prefix
        &&& c.bytes == bytes
    }

    /// What a run begins with.
    pub open spec fn begins(
        plan: PlaylistPlan,
        resume: (u64, usize),
        held: Vec<u64>,
        min_split_size: u64,
        r: Result<PlaylistBegin, HttpError>,
    ) -> bool {
        &&& plan.count() == 0 ==> r is Err && is_protocol(
            r->Err_0,
            "播放列表中没有可下载的分片"@,
        )
        &&& plan.count() > 0 ==> r is Ok && ({
            let run = r->Ok_0.run;
            let prefix = joined_parts(resume);
            let bytes = if prefix == 0 { 0 } else { resume.0 };
            &&& run.wf()
            &&& run.fp@ == plan_mark(&plan)
            &&& run.source@ == plan.source@
            &&& run.total_segments == plan.count()
            &&& run.min_split_size == min_split_size
            &&& run.written == prefix
            &&& run.base == bytes
            &&& run.held == held
            &&& forall|i: int| 0 <= i < run.whole@.len() ==> !#[trigger] run.whole@[i]
            &&& run.safe_parts == prefix
            &&& run.bytes == bytes
            &&& run.last_save is None
            &&& run.stats.completed == resume.0 + sum_of(held@)
            &&& run.stats.connections == 0
            &&& run.pieces is None
            &&& run.mapped == run.on_disk()
            &&& r->Ok_0.keep == if prefix > 0 { Some(bytes) } else { None }
            &&& run.notes(r->Ok_0.mark, prefix as int, bytes as int)
        })
    }

    /// Begins a run at the resume point, with `held` bytes of each part in a file of its
    /// own. A plan without parts is an error. Progress begins with everything that was
    /// recorded, even if a record without any whole part leaves nothing to go on from.
    pub fn start(plan: &PlaylistPlan, resume: (u64, usize), held: Vec<u64>, min_split_size: u64) -> (r:
        Result<PlaylistBegin, HttpError>)
        requires
            plan.segments@.len() < usize::MAX,
            resume.1 <= plan.count(),
            held@.len() == plan.count(),
            resume.0 + sum_of(held@) <= u64::MAX,
            forall|i: int|
                0 <= i < joined_parts(resume) && i < held@.len() ==> #[trigger] held@[i] == 0,
        ensures
            Self::begins(*plan, resume, held, min_split_size, r),
    {
        let total: usize = plan.segment_count();
        if total == 0 {
            return Err(HttpError::Protocol("播放列表中没有可下载的分片".to_owned()));
        }
        let prefix: usize = if resume.0 == 0 { 0 } else { resume.1 };
        let bytes: u64 = if prefix == 0 { 0 } else { resume.0 };
        let mut spilled: u64 = 0;
        let mut whole: Vec<bool> = Vec::new();
        let mut i: usize = 0;
        assert(held@.take(0) =~= Seq::<u64>::empty());
        while i < total
            invariant
                i <= total,
                total == held@.len(),
                spilled == sum_of(held@.take(i as int)),
                sum_of(held@) <= u64::MAX,
                whole@.len() == i,
                forall|k: int| 0 <= k < i ==> !#[trigger] whole@[k],
            decreases total - i,
        {
            proof {
                lemma_sum_of(held@, i + 1);
                assert(held@.take(i + 1).drop_last() =~= held@.take(i as int));
            }
            spilled = spilled + held[i];
            whole.push(false);
            i = i + 1;
        }
        assert(held@.take(i as int) =~= held@);
        let run = PlaylistRun {
            fp: fingerprint(plan),
            source: plan.source.clone(),
            total_segments: total,
            min_split_size,
            written: prefix,
            base: bytes,
            held,
            whole,
            spilled,
            safe_parts: prefix,
            bytes,
            last_save: None,
            stats: PlaylistStats::new(resume.0 + spilled),
            pieces: None,
            mapped: bytes + spilled,
        };
        let keep: Option<u64> = if prefix > 0 { Some(bytes) } else { None };
        let mark = run.ctrl_of(prefix, bytes);
        Ok(PlaylistBegin { run, keep, mark })
    }

    /// Attaches a piece map for a file of that size; none leaves it for later.
    pub fn attach_pieces(&mut self, total: Option<u64>)
        requires
            old(self).wf(),
        ensures
            final(self).wf(),
            final(self).exact_pieces(),
            match total {
                Some(n) => {
                    &&& final(self).pieces is Some
                    &&& final(self).pieces->0.total == n
                    &&& final(self).pieces->0.piece_len == shown_piece_len(old(self).min_split_size, n)
                },
                None => final(self).pieces is None,
            },
            *final(self) == (PlaylistRun { pieces: final(self).pieces, ..*old(self) }),
    {
        self.pieces = match total {
            Some(n) => Some(prefix_pieces(n, self.min_split_size, self.mapped)),
            None => None,
        };
    }

    /// Segments in flight.
    pub open spec fn in_flight(wanted: usize) -> usize {
        if wanted < 1 {
            1
        } else if wanted > MAX_SEGMENT_CONCURRENCY {
            MAX_SEGMENT_CONCURRENCY
        } else {
            wanted
        }
    }

    /// Segments in flight.
    pub fn concurrency(wanted: usize) -> (r: usize)
        ensures
            r == Self::in_flight(wanted),
    {
        if wanted < 1 {
            1
        } else if wanted > MAX_SEGMENT_CONCURRENCY {
            MAX_SEGMENT_CONCURRENCY
        } else {
            wanted
        }
    }

    /// The control file of this run with these marks.
    pub fn ctrl_of(&self, prefix: usize, bytes: u64) -> (r: PlaylistCtrl)
        ensures
            self.notes(r, prefix as int, bytes as int),
    {
        PlaylistCtrl {
            kind: "hls-playlist".to_owned(),
            v: PLAYLIST_CTRL_VERSION,
            fp: self.fp.clone(),
            url: self.source.clone(),
            segs: self.total_segments,
            prefix,
            bytes,
        }
    }

    /// Whether a save of the control file is due.
    pub open spec fn is_due(&self, now: u64) -> bool {
        self.last_save is None || elapsed(now, self.last_save->0) >= PLAYLIST_SAVE_INTERVAL
    }

    fn save_due(&self, now: u64) -> (r: bool)
        ensures
            r == self.is_due(now),
    {
        match self.last_save {
            None => true,
            Some(at) => elapsed_since(now, at) >= PLAYLIST_SAVE_INTERVAL,
        }
    }

    /// The piece map once `amount` bytes are on disk: as many bytes are lit as were ever
    /// there.
    pub open spec fn lights(&self, after: &PlaylistRun, amount: int) -> bool {
        if amount <= self.mapped {
            after.pieces == self.pieces && after.mapped == self.mapped
        } else {
            &&& after.mapped == amount
            &&& match self.pieces {
                Some(t) => after.pieces is Some && t.added(
                    &after.pieces->0,
                    self.mapped as int,
                    amount - self.mapped,
                ),
                None => after.pieces is None,
            }
        }
    }

    fn light(&mut self, amount: u64)
        requires
            old(self).pieces is Some ==> old(self).pieces->0.wf(),
        ensures
            final(self).pieces is Some ==> final(self).pieces->0.wf(),
            old(self).exact_pieces() ==> final(self).exact_pieces(),
            old(self).lights(final(self), amount as int),
            *final(self) == (PlaylistRun {
                pieces: final(self).pieces,
                mapped: final(self).mapped,
                ..*old(self)
            }),
    {
        let from: u64 = self.mapped;
        if amount <= from {
            return;
        }
        let ghost before = *self;
        match &mut self.pieces {
            Some(t) => {
                t.add_range(from, amount - from);
            },
            None => {},
        }
        proof {
            if before.exact_pieces() && before.pieces is Some {
                lemma_added_records(
                    &before.pieces->0,
                    &self.pieces->0,
                    from as int,
                    amount - from,
                    first_bytes(from as int),
                    first_bytes(amount as int),
                );
            }
        }
        self.mapped = amount;
    }

    /// What the run is once the own file of part `i` holds `len` bytes.
    pub open spec fn grows(&self, after: &PlaylistRun, i: int, len: u64) -> bool {
        &&& after.held@ == self.held@.update(i, len)
        &&& after.spilled == self.spilled - self.held@[i] + len
        &&& after.stats.completed == after.on_disk()
        &&& self.lights(after, after.on_disk())
        &&& *after == (PlaylistRun {
            held: after.held,
            spilled: after.spilled,
            stats: PlaylistStats { completed: after.stats.completed, ..self.stats },
            pieces: after.pieces,
            mapped: after.mapped,
            ..*self
        })
    }

    /// Books that the own file of part `i` holds `len` bytes.
    pub fn on_part(&mut self, i: usize, len: u64)
        requires
            old(self).wf(),
            old(self).written <= i < old(self).total_segments,
            old(self).on_disk() - old(self).held@[i as int] + len <= u64::MAX,
        ensures
            final(self).wf(),
            old(self).exact_pieces() ==> final(self).exact_pieces(),
            old(self).grows(final(self), i as int, len),
    {
        proof {
            lemma_sum_of(self.held@, i as int);
            lemma_sum_update(self.held@, i as int, len);
        }
        self.spilled = self.spilled - self.held[i] + len;
        self.held.set(i, len);
        self.stats.completed = self.base + self.spilled;
        self.light(self.base + self.spilled);
    }

    /// Books that part `i` is whole in its own file.
    pub fn on_whole(&mut self, i: usize)
        requires
            old(self).wf(),
            i < old(self).total_segments,
        ensures
            final(self).wf(),
            final(self).whole@ == old(self).whole@.update(i as int, true),
            *final(self) == (PlaylistRun { whole: final(self).whole, ..*old(self) }),
    {
        self.whole.set(i, true);
    }

    /// The part that can be joined next.
    pub open spec fn joinable(&self) -> Option<usize> {
        if self.written < self.total_segments && self.whole@[self.written as int] {
            Some(self.written)
        } else {
            None
        }
    }

    /// The part to join next: the one behind those joined, as soon as it is whole.
    pub fn next_join(&self) -> (r: Option<usize>)
        requires
            self.wf(),
        ensures
            r == self.joinable(),
    {
        if self.written < self.total_segments && self.whole[self.written] {
            Some(self.written)
        } else {
            None
        }
    }

    /// What the run is once the next part was joined to the product, which ends at
    /// `position` now. A run without a piece map gets one by what the joined parts measure.
    pub open spec fn joins(&self, after: &PlaylistRun, position: u64) -> bool {
        let i = self.written as int;
        &&& after.held@ == self.held@.update(i, 0)
        &&& after.spilled == self.spilled - self.held@[i]
        &&& after.stats.completed == after.on_disk()
        &&& after.mapped == if after.on_disk() > self.mapped {
            after.on_disk()
        } else {
            self.mapped as int
        }
        &&& match self.pieces {
            Some(_) => self.lights(after, after.on_disk()),
            None => match measured(position, after.written, self.total_segments) {
                Some(n) => {
                    &&& after.pieces is Some
                    &&& after.exact_pieces()
                    &&& after.pieces->0.total == n
                    &&& after.pieces->0.piece_len == shown_piece_len(self.min_split_size, n)
                },
                None => after.pieces is None,
            },
        }
        &&& *after == (PlaylistRun {
            written: (self.written + 1) as usize,
            base: position,
            held: after.held,
            spilled: after.spilled,
            stats: PlaylistStats { completed: after.stats.completed, ..self.stats },
            pieces: after.pieces,
            mapped: after.mapped,
            ..*self
        })
    }

    /// Books that the next part was joined to the product, which ends at `position` now,
    /// and tells whether a save is due.
    pub fn on_written(&mut self, position: u64, now: u64) -> (due: bool)
        requires
            old(self).wf(),
            old(self).written < old(self).total_segments,
            position + old(self).spilled - old(self).held@[old(self).written as int] <= u64::MAX,
        ensures
            final(self).wf(),
            old(self).exact_pieces() ==> final(self).exact_pieces(),
            old(self).joins(final(self), position),
            due == old(self).is_due(now),
    {
        let i: usize = self.written;
        proof {
            lemma_sum_of(self.held@, i as int);
            lemma_sum_update(self.held@, i as int, 0);
        }
        self.spilled = self.spilled - self.held[i];
        self.held.set(i, 0);
        self.written = self.written + 1;
        self.base = position;
        self.stats.completed = self.base + self.spilled;
        self.light(self.base + self.spilled);
        if self.pieces.is_none() {
            let likely = measure_total(self.base, self.written, self.total_segments);
            self.attach_pieces(likely);
        }
        self.save_due(now)
    }

    /// Books that everything joined is safe on disk, and gives the control file to save.
    pub fn on_flushed(&mut self, now: u64) -> (r: PlaylistCtrl)
        requires
            old(self).wf(),
        ensures
            final(self).wf(),
            *final(self) == (PlaylistRun {
                safe_parts: old(self).written,
                bytes: old(self).base,
                last_save: Some(now),
                ..*old(self)
            }),
            old(self).notes(r, old(self).written as int, old(self).base as int),
    {
        self.safe_parts = self.written;
        self.bytes = self.base;
        self.last_save = Some(now);
        self.ctrl_of(self.written, self.base)
    }

    /// The marks of a control file that is saved at the end: everything joined if the last
    /// flush went well, else what was safe before it.
    pub open spec fn last_notes(&self, c: PlaylistCtrl, flushed: Result<(), String>) -> bool {
        if flushed is Ok {
            self.notes(c, self.written as int, self.base as int)
        } else {
            self.notes(c, self.safe_parts as int, self.bytes as int)
        }
    }

    /// How the run ends: `flushed` is the last flush, `failure` the first error before it.
    pub open spec fn ends_as(
        &self,
        flushed: Result<(), String>,
        failure: Option<HttpError>,
        r: PlaylistEnd,
    ) -> bool {
        if failure is Some {
            &&& r.result == Err::<PlaylistDone, HttpError>(failure->0)
            &&& !r.remove_ctrl
            &&& r.save is Some
            &&& self.last_notes(r.save->0, flushed)
            &&& r.pieces is None
        } else if flushed is Err {
            &&& r.result == Err::<PlaylistDone, HttpError>(HttpError::Io(flushed->Err_0))
            &&& !r.remove_ctrl
            &&& r.save is Some
            &&& self.last_notes(r.save->0, flushed)
            &&& r.pieces is None
        } else if self.written == self.total_segments {
            &&& r.result == Ok::<PlaylistDone, HttpError>(
                PlaylistDone {
                    bytes: self.base,
                    segments: self.written,
                    total_segments: self.total_segments,
                },
            )
            &&& r.remove_ctrl
            &&& r.save is None
            &&& r.pieces is Some
            &&& r.pieces->0.wf()
            &&& r.pieces->0.total == self.base
            &&& r.pieces->0.piece_len == shown_piece_len(self.min_split_size, self.base)
            &&& r.pieces->0.records(first_bytes(self.base as int))
        } else {
            &&& r.result is Err
            &&& is_protocol(
                r.result->Err_0,
                "播放列表未下载完整: "@ + decimal(self.written as nat) + "/"@ + decimal(
                    self.total_segments as nat,
                ) + " 段"@,
            )
            &&& !r.remove_ctrl
            &&& r.save is Some
            &&& self.last_notes(r.save->0, flushed)
            &&& r.pieces is None
        }
    }

    /// Ends the run: `flushed` is the last flush, `failure` the first error before it. The
    /// control file never tells more than what is safe on disk. A finished file gets a
    /// piece map of its true length.
    pub fn finish(&self, flushed: Result<(), String>, failure: Option<HttpError>) -> (r: PlaylistEnd)
        requires
            self.wf(),
        ensures
            self.ends_as(flushed, failure, r),
    {
        let mark = if flushed.is_ok() {
            self.ctrl_of(self.written, self.base)
        } else {
            self.ctrl_of(self.safe_parts, self.bytes)
        };
        let first: Option<HttpError> = match failure {
            Some(e) => Some(e),
            None => match flushed {
                Ok(_) => None,
                Err(m) => Some(HttpError::Io(m)),
            },
        };
        match first {
            Some(e) => PlaylistEnd {
                result: Err(e),
                save: Some(mark),
                remove_ctrl: false,
                pieces: None,
            },
            None => {
                if self.written == self.total_segments {
                    PlaylistEnd {
                        result: Ok(
                            PlaylistDone {
                                bytes: self.base,
                                segments: self.written,
                                total_segments: self.total_segments,
                            },
                        ),
                        save: None,
                        remove_ctrl: true,
                        pieces: Some(prefix_pieces(self.base, self.min_split_size, self.base)),
                    }
                } else {
                    let mut m = chars_of("播放列表未下载完整: ");
                    let a = dec_chars(self.written as u64);
                    push_all(&mut m, &a);
                    push_str(&mut m, "/");
                    let b = dec_chars(self.total_segments as u64);
                    push_all(&mut m, &b);
                    push_str(&mut m, " 段");
                    PlaylistEnd {
                        result: Err(HttpError::Protocol(string_of(&m))),
                        save: Some(mark),
                        remove_ctrl: false,
                        pieces: None,
                    }
                }
            },
        }
    }
}

/// What a run saved is what the next run of the same plan goes on from, as long as the
/// file still holds the bytes.
pub proof fn law_resume_gives_back_the_marks(
    run: PlaylistRun,
    plan: &PlaylistPlan,
    c: PlaylistCtrl,
    prefix: int,
    bytes: int,
    file_len: u64,
)
    requires
        run.fp@ == plan_mark(plan),
        run.source@ == plan.source@,
        run.total_segments == plan.count(),
        run.notes(c, prefix, bytes),
        0 <= prefix <= run.total_segments,
        bytes <= file_len,
    ensures
        resumes_at(Some(c), Some(file_len), plan) == (bytes as u64, prefix as usize),
{
}

/// A pause loses nothing: with the marks of everything joined, and with the parts' own
/// files as the run left them, the next run of the same plan holds the same bytes of every
/// part and begins with the progress at which this one stopped.
pub proof fn law_pause_keeps_progress(
    run: PlaylistRun,
    plan: &PlaylistPlan,
    c: PlaylistCtrl,
    file_len: u64,
)
    requires
        run.wf(),
        run.fp@ == plan_mark(plan),
        run.source@ == plan.source@,
        run.total_segments == plan.count(),
        run.notes(c, run.written as int, run.base as int),
        run.base <= file_len,
        forall|i: int|
            0 <= i < plan.count() ==> (#[trigger] plan.parts()[i]).size is None || run.held@[i]
                <= plan.parts()[i].size->0,
    ensures
        ({
            let at = resumes_at(Some(c), Some(file_len), plan);
            let held = held_at(Some(c), Some(file_len), run.held@, plan);
            &&& at == (run.base, run.written)
            &&& held == run.held@
            &&& at.0 + sum_of(held) == run.on_disk()
        }),
{
    let kept = kept_parts(Some(c), Some(file_len), run.held@, plan);
    assert forall|i: int| 0 <= i < plan.count() implies kept[i] == run.held@[i] by {
        assert(plan.parts()[i].size is None || run.held@[i] <= plan.parts()[i].size->0);
    }
    assert(kept =~= run.held@);
}

/// Progress does not go back while parts come in, as long as no file of a part shrinks.
pub proof fn law_progress_does_not_go_back(before: PlaylistRun, after: PlaylistRun, i: int, len: u64)
    requires
        before.wf(),
        before.written <= i < before.total_segments,
        before.stats.completed == before.on_disk(),
        before.held@[i] <= len,
        before.grows(&after, i, len),
    ensures
        after.stats.completed == before.stats.completed + (len - before.held@[i]),
        after.stats.completed >= before.stats.completed,
{
}

/// Joining a part that is joined as it was sent leaves progress as it is: its bytes move
/// from its own file to the product.
pub proof fn law_joining_keeps_progress(before: PlaylistRun, after: PlaylistRun, position: u64)
    requires
        before.wf(),
        before.written < before.total_segments,
        before.stats.completed == before.on_disk(),
        position == before.base + before.held@[before.written as int],
        before.joins(&after, position),
    ensures
        after.stats.completed == before.stats.completed,
        after.written == before.written + 1,
{
}

/// What the piece map shows never goes dark again.
pub proof fn law_piece_map_only_grows(
    before: PlaylistRun,
    after: PlaylistRun,
    i: int,
    len: u64,
    position: u64,
)
    requires
        before.grows(&after, i, len) || before.joins(&after, position),
    ensures
        before.mapped <= after.mapped,
        before.pieces is Some ==> after.pieces is Some,
{
}

/// Once everything is joined, nothing lies in the parts' own files any more, and progress
/// is the size of the product.
pub proof fn law_all_joined_leaves_no_part_files(run: PlaylistRun)
    requires
        run.wf(),
        run.written == run.total_segments,
    ensures
        run.spilled == 0,
        run.on_disk() == run.base,
{
    lemma_sum_zero(run.held@);
}

/// A control file is never used for a playlist with another fingerprint, another
/// address or another number of parts: such a download starts anew, whatever the parts'
/// own files hold.
pub proof fn law_other_playlist_starts_anew(
    c: PlaylistCtrl,
    plan: &PlaylistPlan,
    file_len: Option<u64>,
    found: Seq<u64>,
)
    requires
        c.fp@ != plan_mark(plan) || c.url@ != plan.source@ || c.segs != plan.count(),
    ensures
        resumes_at(Some(c), file_len, plan) == (0u64, 0usize),
        forall|i: int|
            0 <= i < plan.count() ==> #[trigger] held_at(Some(c), file_len, found, plan)[i] == 0,
{
}

// ---------------------------------------------------------------------------
// Names
// ---------------------------------------------------------------------------

/// A file name without the extension of a playlist.
pub open spec fn bare_name(name: Seq<char>) -> Seq<char> {
    let l = lowered(name);
    if has_suffix(l, ".m3u8"@) {
        name.take(name.len() - 5)
    } else if has_suffix(l, ".m3u"@) {
        name.take(name.len() - 4)
    } else {
        name
    }
}

/// Removes the extension of a playlist.
pub fn strip_playlist_ext(name: &str) -> (r: String)
    ensures
        r@ == bare_name(name@),
{
    proof {
        reveal_strlit(".m3u8");
        reveal_strlit(".m3u");
    }
    let v = chars_of(name);
    let l = to_lower(&v);
    assert(l@.len() == v@.len());
    let keep: usize = if ends_with(&l, ".m3u8") {
        v.len() - 5
    } else if ends_with(&l, ".m3u") {
        v.len() - 4
    } else {
        v.len()
    };
    let r = part(&v, 0, keep);
    assert(r@ =~= name@.take(keep as int));
    assert(name@.take(name@.len() as int) =~= name@);
    string_of(&r)
}

/// Whether a name says nothing about the media.
pub open spec fn generic(s: Seq<char>) -> bool {
    let l = lowered(s);
    ||| s.len() == 0
    ||| l == "index"@
    ||| l == "playlist"@
    ||| l == "master"@
    ||| l == "manifest"@
    ||| l == "main"@
    ||| l == "media"@
    ||| l == "hls"@
    ||| l == "video"@
    ||| l == "out"@
    ||| l == "output"@
    ||| l == "stream"@
    ||| l == "chunklist"@
    ||| l == "prog_index"@
    ||| l == "play"@
    ||| l == "hlsr"@
    ||| l == "dash"@
}

/// Tests whether a name says nothing about the media.
pub fn is_generic_stem(s: &str) -> (r: bool)
    ensures
        r == generic(s@),
{
    let v = chars_of(s);
    let l = to_lower(&v);
    v.len() == 0 || same_text(&l, "index") || same_text(&l, "playlist") || same_text(&l, "master")
        || same_text(&l, "manifest") || same_text(&l, "main") || same_text(&l, "media") || same_text(
        &l,
        "hls",
    ) || same_text(&l, "video") || same_text(&l, "out") || same_text(&l, "output") || same_text(
        &l,
        "stream",
    ) || same_text(&l, "chunklist") || same_text(&l, "prog_index") || same_text(&l, "play") || same_text(
        &l,
        "hlsr",
    ) || same_text(&l, "dash")
}

/// The directory in an address: its last part but one; nothing if there is none.
pub open spec fn parent_text(url: Seq<char>) -> Seq<char> {
    let parts = split_on(path_part(url), '/');
    if parts.len() >= 2 { parts[parts.len() - 2] } else { Seq::empty() }
}

/// The directory in an address, as it stands there.
pub fn parent_part(url: &str) -> (r: String)
    ensures
        r@ == parent_text(url@),
{
    let v = chars_of(url);
    let p = path_chars(&v);
    let parts = split(&p, '/');
    let ghost all = split_on(path_part(url@), '/');
    assert(all.len() == parts@.len());
    if parts.len() >= 2 {
        assert(all[all.len() - 2] == parts@[parts@.len() - 2]@);
        string_of(&parts[parts.len() - 2])
    } else {
        String::new()
    }
}

/// The default name of the file: that of the playlist, else that of its directory, with
/// the extension of the media. `raw` is the file name in the address, `parent` its
/// directory, both decoded.
pub fn default_filename(raw: &str, parent: &str, fmp4: bool) -> (r: String)
    ensures
        r@ == default_name(raw@, parent@, fmp4),
{
    let stem = strip_playlist_ext(raw);
    let name = if !is_generic_stem(stem.as_str()) {
        stem
    } else if !is_generic_stem(parent) {
        parent.to_owned()
    } else {
        "video".to_owned()
    };
    joined(name.as_str(), if fmp4 { ".mp4" } else { ".ts" })
}

// ---------------------------------------------------------------------------
// Parts
// ---------------------------------------------------------------------------

/// First and last byte of a part that is a byte range; none if it is all of its address.
pub open spec fn bytes_of(range: Option<(u64, u64)>) -> Option<(u64, u64)> {
    match range {
        None => None,
        Some(p) => Some((p.0, wrap_sum(p.0, if p.1 > 0 { (p.1 - 1) as u64 } else { 0 }))),
    }
}

/// First and last byte that are asked for once `got` bytes of a part are there; none if all
/// of an address is asked for.
pub open spec fn rest_of(range: Option<(u64, u64)>, got: u64) -> Option<(u64, Option<u64>)> {
    match range {
        Some(p) => Some(
            (
                wrap_sum(p.0, got),
                Some(wrap_sum(p.0, if p.1 > 0 { (p.1 - 1) as u64 } else { 0 })),
            ),
        ),
        None => if got > 0 { Some((got, None::<u64>)) } else { None },
    }
}

/// How an answer to the request for the rest of a part is used.
pub open spec fn use_of(range: Option<(u64, u64)>, got: u64, status: u16) -> PartAnswer {
    if got == 0 || status == 206 {
        PartAnswer::Body { skip: 0 }
    } else if range is Some {
        PartAnswer::Unusable
    } else if status == 416 {
        PartAnswer::Complete
    } else {
        PartAnswer::Body { skip: got }
    }
}

/// The wait before a part is tried again, in milliseconds; none if it is not.
pub open spec fn retry_wait(attempt: u32, retries: u32, retryable: bool) -> Option<u64> {
    if retryable && attempt < (if retries < 1 { 1 } else { retries }) {
        Some((400 * attempt) as u64)
    } else {
        None
    }
}

/// The name of a file that is made of a playlist.
pub open spec fn default_name(raw: Seq<char>, parent: Seq<char>, fmp4: bool) -> Seq<char> {
    (if !generic(bare_name(raw)) {
        bare_name(raw)
    } else if !generic(parent) {
        parent
    } else {
        "video"@
    }) + if fmp4 { ".mp4"@ } else { ".ts"@ }
}

/// The rest of a byte range begins behind what is there and ends where the range ends, so
/// that exactly the missing bytes are asked for; the rest of a whole address is everything
/// behind what is there.
pub proof fn law_exactly_the_missing_bytes_are_asked_for(off: u64, len: u64, got: u64)
    requires
        off + len <= u64::MAX,
        got < len,
    ensures
        ({
            let r = rest_of(Some((off, len)), got);
            &&& r is Some && (r->0).1 is Some
            &&& (r->0).0 == off + got
            &&& (r->0).1->0 - (r->0).0 + 1 == len - got
        }),
        bytes_of(Some((off, len))) is Some,
        (bytes_of(Some((off, len)))->0).0 == off,
        (bytes_of(Some((off, len)))->0).1 == off + len - 1,
        bytes_of(None) is None,
        got > 0 ==> rest_of(None, got) == Some((got, None::<u64>)),
        rest_of(None, 0) is None,
{
}

/// What an answer adds fits behind what is there: a part of the address is taken as it is,
/// the whole of it from behind what is there on. That nothing is left means that all is
/// there. A server that sends a whole address for a byte range is of no use.
pub proof fn law_answer_continues_what_is_there(range: Option<(u64, u64)>, got: u64, status: u16, body: u64)
    requires
        got + body <= u64::MAX,
    ensures
        status == 206 ==> use_of(range, got, status) == (PartAnswer::Body { skip: 0 }),
        got == 0 ==> use_of(range, got, status) == (PartAnswer::Body { skip: 0 }),
        got > 0 && range is None && status == 200 && body >= got ==> ({
            let u = use_of(range, got, status);
            u is Body && got + (body - u->Body_skip) == body
        }),
        got > 0 && range is None && status == 416 ==> use_of(range, got, status) is Complete,
        got > 0 && range is Some && status != 206 ==> use_of(range, got, status) is Unusable,
{
}

/// A part is tried as often as is asked for, at least once, with a wait that grows by 400
/// milliseconds each time; what cannot get better is not tried again.
pub proof fn law_part_is_tried_as_often_as_asked(attempt: u32, retries: u32, retryable: bool)
    requires
        attempt >= 1,
    ensures
        retry_wait(attempt, retries, retryable) is Some <==> retryable && attempt < retries,
        retry_wait(attempt, retries, retryable) is Some ==> retry_wait(attempt, retries, retryable)->0
            == 400 * attempt,
        retry_wait(attempt, 0, retryable) is None,
{
}

/// The file of a playlist is called after the playlist, without its extension; where that
/// says nothing, after its directory; where that says nothing either, a video. What it is
/// made of shows in the extension.
pub proof fn law_file_is_called_after_its_playlist(stem: Seq<char>, parent: Seq<char>, fmp4: bool)
    ensures
        ({
            let end = if fmp4 { ".mp4"@ } else { ".ts"@ };
            &&& (!generic(stem) ==> default_name(stem + ".m3u8"@, parent, fmp4) == stem + end)
            &&& (generic(stem) && !generic(parent) ==> default_name(stem + ".m3u8"@, parent, fmp4)
                == parent + end)
            &&& (generic(stem) && generic(parent) ==> default_name(stem + ".m3u8"@, parent, fmp4)
                == "video"@ + end)
        }),
{
    law_playlist_extension_is_cut(stem);
}

/// A playlist extension of either kind, in either case, is cut off.
pub proof fn law_playlist_extension_is_cut(stem: Seq<char>)
    ensures
        bare_name(stem + ".m3u8"@) == stem,
        bare_name(stem + ".m3u"@) == stem,
        bare_name(stem + ".M3U8"@) == stem,
{
    reveal_strlit(".m3u8");
    reveal_strlit(".M3U8");
    reveal_strlit(".m3u");
    let a = stem + ".m3u8"@;
    assert(lowered(a).skip(a.len() - 5) =~= ".m3u8"@);
    assert(a.take(a.len() - 5) =~= stem);
    let b = stem + ".M3U8"@;
    assert(lowered(b).skip(b.len() - 5) =~= ".m3u8"@);
    assert(b.take(b.len() - 5) =~= stem);
    let c = stem + ".m3u"@;
    assert(lowered(c).skip(c.len() - 4) =~= ".m3u"@);
    assert(c.take(c.len() - 4) =~= stem);
    if has_suffix(lowered(c), ".m3u8"@) {
        assert(lowered(c).skip(c.len() - 5).last() == '8');
        assert(lowered(c)[c.len() - 1] == 'u');
    }
}

/// The directory of an address is its last part but one.
pub proof fn law_directory_of_an_address(head: Seq<char>, dir: Seq<char>, file: Seq<char>)
    requires
        forall|i: int| 0 <= i < head.len() ==> #[trigger] head[i] != '?' && head[i] != '#',
        forall|i: int|
            0 <= i < dir.len() ==> #[trigger] dir[i] != '?' && dir[i] != '#' && dir[i] != '/',
        forall|i: int|
            0 <= i < file.len() ==> #[trigger] file[i] != '?' && file[i] != '#' && file[i] != '/',
    ensures
        parent_text(head.push('/') + (dir.push('/') + file)) == dir,
{
    let tail = dir.push('/') + file;
    let s = head.push('/') + tail;
    assert forall|i: int| 0 <= i < s.len() implies #[trigger] s[i] != '?' && s[i] != '#' by {
        if i < head.len() {
            assert(s[i] == head[i]);
        } else if i > head.len() {
            let j = i - head.len() - 1;
            assert(s[i] == tail[j]);
            if j < dir.len() {
                assert(tail[j] == dir[j]);
            } else if j > dir.len() {
                assert(tail[j] == file[j - dir.len() - 1]);
            }
        }
    }
    lemma_all_path(s);
    crate::text::law_split_of_two(head, tail, '/');
    crate::text::law_split_of_two(dir, file, '/');
    assert(!dir.contains('/')) by {
        if dir.contains('/') {
            let i = choose|i: int| 0 <= i < dir.len() && dir[i] == '/';
            assert(dir[i] != '/');
        }
    }
    assert(!file.contains('/')) by {
        if file.contains('/') {
            let i = choose|i: int| 0 <= i < file.len() && file[i] == '/';
            assert(file[i] != '/');
        }
    }
    crate::text::law_split_without_separator(dir, '/');
    crate::text::law_split_without_separator(file, '/');
    let parts = split_on(s, '/');
    assert(parts =~= split_on(head, '/') + seq![dir, file]);
}

proof fn lemma_all_path(s: Seq<char>)
    requires
        forall|i: int| 0 <= i < s.len() ==> #[trigger] s[i] != '?' && s[i] != '#',
    ensures
        path_part(s) == s,
    decreases s.len(),
{
    if s.len() > 0 {
        let t = s.skip(1);
        assert forall|i: int| 0 <= i < t.len() implies #[trigger] t[i] != '?' && t[i] != '#' by {
            assert(t[i] == s[i + 1]);
        }
        lemma_all_path(t);
        assert(s[0] != '?');
        assert(seq![s[0]] + t =~= s);
    } else {
        assert(path_part(s) =~= s);
    }
}

/// The size of everything is known if and only if that of every part is and they fit; a
/// part more adds its size.
pub proof fn law_sizes_add_up(parts: Seq<SegmentView>, s: SegmentView)
    ensures
        size_sum(Seq::<SegmentView>::empty()) == Some(0int),
        s.size is Some && size_sum(parts) is Some ==> size_sum(parts.push(s)) == Some(
            size_sum(parts)->0 + s.size->0,
        ),
        s.size is None ==> size_sum(parts.push(s)) is None,
        size_sum(parts) is None ==> size_sum(parts.push(s)) is None,
        size_sum(parts) is Some && 0 <= size_sum(parts)->0 <= u64::MAX ==> plan_size(parts) == Some(
            size_sum(parts)->0 as u64,
        ),
        size_sum(parts) is None ==> plan_size(parts) is None,
{
    assert(parts.push(s).drop_last() =~= parts);
}

/// The segments that are asked for their size are exactly those whose size is not known.
pub proof fn law_only_unknown_sizes_are_asked_for(segs: Seq<SegmentView>, i: int)
    requires
        0 <= i < segs.len() <= usize::MAX,
    ensures
        unknown_ids(segs).contains(i as usize) <==> segs[i].size is None,
    decreases segs.len(),
{
    let front = segs.drop_last();
    let rest = unknown_ids(front);
    let all = unknown_ids(segs);
    lemma_unknown_below(front);
    let x = i as usize;
    if i < front.len() {
        law_only_unknown_sizes_are_asked_for(front, i);
        assert(front[i] == segs[i]);
        if rest.contains(x) {
            let k = choose|k: int| 0 <= k < rest.len() && rest[k] == x;
            assert(all[k] == x);
        }
        if all.contains(x) {
            let k = choose|k: int| 0 <= k < all.len() && all[k] == x;
            assert(k < rest.len());
            assert(rest[k] == x);
        }
    } else {
        if segs.last().size is None {
            assert(all[all.len() - 1] == x);
        } else if all.contains(x) {
            let k = choose|k: int| 0 <= k < all.len() && all[k] == x;
            assert(rest[k] < front.len());
        }
    }
}

proof fn lemma_unknown_below(segs: Seq<SegmentView>)
    requires
        segs.len() <= usize::MAX,
    ensures
        forall|k: int| 0 <= k < unknown_ids(segs).len() ==> #[trigger] unknown_ids(segs)[k] < segs.len(),
    decreases segs.len(),
{
    if segs.len() > 0 {
        lemma_unknown_below(segs.drop_last());
        let rest = unknown_ids(segs.drop_last());
        assert forall|k: int| 0 <= k < unknown_ids(segs).len() implies #[trigger] unknown_ids(segs)[k]
            < segs.len() by {
            if k < rest.len() {
                assert(unknown_ids(segs)[k] == rest[k]);
            }
        }
    }
}

/// Each size that was found is that of the segment that was asked; no other segment
/// changes, and a size of zero counts as none.
pub proof fn law_found_sizes_reach_their_segments(
    segs: Seq<SegmentView>,
    ids: Seq<usize>,
    sizes: Seq<Option<u64>>,
    k: int,
    i: int,
)
    requires
        ids.len() == sizes.len(),
        0 <= k <= ids.len(),
        ids.no_duplicates(),
        forall|j: int| 0 <= j < ids.len() ==> #[trigger] ids[j] < segs.len(),
        0 <= i < segs.len(),
    ensures
        sized(segs, ids, sizes, k).len() == segs.len(),
        sized(segs, ids, sizes, k)[i].url == segs[i].url,
        sized(segs, ids, sizes, k)[i].key == segs[i].key,
        sized(segs, ids, sizes, k)[i].range == segs[i].range,
        forall|j: int|
            0 <= j < k && #[trigger] ids[j] == i ==> sized(segs, ids, sizes, k)[i].size == match sizes[j] {
                Some(n) => if n > 0 {
                    Some(n)
                } else {
                    None
                },
                None => None,
            },
        (forall|j: int| 0 <= j < k ==> #[trigger] ids[j] != i) ==> sized(segs, ids, sizes, k)[i]
            == segs[i],
    decreases k,
{
    if k > 0 {
        law_found_sizes_reach_their_segments(segs, ids, sizes, k - 1, i);
        let at = ids[k - 1] as int;
        assert(ids[k - 1] < segs.len());
        if at == i {
            assert forall|j: int| 0 <= j < k && #[trigger] ids[j] == i implies j == k - 1 by {
                if j < k - 1 {
                    assert(ids[j] == ids[k - 1]);
                }
            }
        }
    }
}

/// The sizes of segments are asked for if some are unknown, but not more than five
/// thousand, and at most eight at a time. Segments are fetched at most 64 at a time. One
/// at least is under way in either case, and otherwise as many as were wished for.
pub proof fn law_requests_at_a_time_are_bounded(n: int, c: usize)
    ensures
        is_worth_probing(n) <==> 1 <= n <= 5000,
        1 <= probes_at_a_time(c) <= 8,
        1 <= c <= 8 ==> probes_at_a_time(c) == c,
        c > 8 ==> probes_at_a_time(c) == 8,
        1 <= PlaylistRun::in_flight(c) <= 64,
        1 <= c <= 64 ==> PlaylistRun::in_flight(c) == c,
        c > 64 ==> PlaylistRun::in_flight(c) == 64,
{
}

/// A playlist is read if it is no longer than 8 MiB, and a body only if it has as many
/// bytes as were announced.
pub proof fn law_wrong_lengths_are_refused(len: int, r: Result<(), HttpError>, expected: u64, got: u64)
    requires
        length_judged(len, r),
    ensures
        r is Ok <==> len <= 8 * 1024 * 1024,
        body_judged(None, got) is Ok,
        body_judged(Some(expected), got) is Ok <==> got == expected,
        got != expected ==> body_judged(Some(expected), got) == Err::<(), HttpError>(HttpError::ShortRead),
{
}

/// The search for a media playlist asks for the address it came to, three times at most.
pub proof fn law_search_is_bounded(search: PlanSearch, r: Result<String, HttpError>)
    requires
        search.asks(r),
    ensures
        r is Ok <==> search.hops < 3,
        r is Ok ==> r->Ok_0@ == search.cur@,
{
}

/// The state of a playlist is saved at once, and again a second after it was saved last.
pub proof fn law_playlist_is_saved_every_second(run: PlaylistRun, now: u64)
    ensures
        run.last_save is None ==> run.is_due(now),
        run.last_save is Some ==> (run.is_due(now) <==> now >= run.last_save->0 + 1_000_000_000),
{
}

/// A playlist is complete if and only if nothing failed, the last flush succeeded and
/// every segment is in the file. Then its control file goes; else one is saved, which
/// counts no more segments than are in the file.
pub proof fn law_playlist_is_complete_with_its_last_segment(
    run: PlaylistRun,
    flushed: Result<(), String>,
    failure: Option<HttpError>,
    r: PlaylistEnd,
)
    requires
        run.wf(),
        run.ends_as(flushed, failure, r),
    ensures
        r.result is Ok <==> failure is None && flushed is Ok && run.written == run.total_segments,
        r.result is Ok ==> r.result->Ok_0.bytes == run.base && r.result->Ok_0.segments
            == run.total_segments && r.result->Ok_0.total_segments == run.total_segments,
        r.remove_ctrl <==> r.result is Ok,
        r.save is Some <==> r.result is Err,
        failure is Some ==> r.result == Err::<PlaylistDone, HttpError>(failure->0),
        r.save is Some ==> r.save->0.prefix <= run.written && r.save->0.segs == run.total_segments
            && r.save->0.v == 1 && r.save->0.fp@ == run.fp@,
        r.save is Some && flushed is Ok ==> r.save->0.prefix == run.written && r.save->0.bytes == run.base,
{
}

/// A master playlist leads on to the variant with the most bits per second, or with the
/// fewest where that is preferred. It is remembered, and counts as a step.
pub proof fn law_master_leads_to_its_best_variant(
    search: PlanSearch,
    text: Seq<char>,
    final_url: Seq<char>,
    base: Seq<char>,
    prefer_worst: bool,
    after: PlanSearch,
    r: Result<Option<PlaylistPlan>, HttpError>,
    j: int,
)
    requires
        is_master_text(text),
        search.reads(text, final_url, base, prefer_worst, &after, r),
        0 <= j < variants_of(text, base).len(),
    ensures
        r is Ok && r->Ok_0 is None,
        after.hops == search.hops + 1,
        after.chain@.len() == search.chain@.len() + 1,
        after.chain@.last()@ == search.cur@,
        exists|i: int|
            0 <= i < variants_of(text, base).len() && after.cur@ == (#[trigger] variants_of(text, base)[i]).url
                && after.bandwidth == variants_of(text, base)[i].bandwidth,
        !prefer_worst ==> after.bandwidth >= variants_of(text, base)[j].bandwidth,
        prefer_worst ==> after.bandwidth <= variants_of(text, base)[j].bandwidth,
{
    let vs = variants_of(text, base);
    let i = choose|i: int| #[trigger]
        is_choice(vs, prefer_worst, i) && after.cur@ == vs[i].url && after.bandwidth == vs[i].bandwidth;
    assert(crate::manifest::ranks_over(vs[i], vs[j], prefer_worst));
    assert(vs[i].url == after.cur@);
    let a = string_texts(after.chain@);
    let b = string_texts(search.chain@);
    assert(a == b.push(search.cur@));
    assert(a.len() == after.chain@.len() && b.len() == search.chain@.len());
    assert(a.last() == search.cur@);
    assert(a[a.len() - 1] == after.chain@[after.chain@.len() - 1]@);
}

/// A media playlist gives a plan of exactly its segments, in their order. It is live
/// while it has no end.
pub proof fn law_media_playlist_gives_its_segments(
    search: PlanSearch,
    text: Seq<char>,
    final_url: Seq<char>,
    base: Seq<char>,
    prefer_worst: bool,
    after: PlanSearch,
    r: Result<Option<PlaylistPlan>, HttpError>,
)
    requires
        !is_master_text(text),
        search.reads(text, final_url, base, prefer_worst, &after, r),
        media_of(text, base) is Ok,
        media_of(text, base)->Ok_0.segments.len() > 0,
    ensures
        r is Ok && r->Ok_0 is Some,
        ({
            let p = r->Ok_0->0;
            let st = media_of(text, base)->Ok_0;
            &&& segment_views(p.segments@) == st.segments
            &&& p.init is Some <==> st.init is Some
            &&& p.live <==> !st.endlist
            &&& p.source@ == final_url
            &&& st.init is Some ==> p.fmp4
        }),
        after.cur == search.cur,
        after.hops == search.hops,
{
}

/// A run begins with the parts that were joined before, if any byte of them was, and
/// keeps as much of the file. A plan without parts is refused.
pub proof fn law_run_begins_where_the_last_one_ended(
    plan: PlaylistPlan,
    resume: (u64, usize),
    held: Vec<u64>,
    size: u64,
    r: Result<PlaylistBegin, HttpError>,
)
    requires
        PlaylistRun::begins(plan, resume, held, size, r),
    ensures
        r is Ok <==> plan.count() > 0,
        r is Ok ==> {
            let run = r->Ok_0.run;
            &&& run.total_segments == plan.count()
            &&& resume.0 > 0 ==> run.written == resume.1
            &&& resume.0 == 0 ==> run.written == 0 && run.base == 0
            &&& run.written > 0 ==> run.base == resume.0 && r->Ok_0.keep == Some(resume.0)
            &&& run.written == 0 ==> run.base == 0 && r->Ok_0.keep is None
            &&& run.held@ == held@
            &&& run.stats.completed == resume.0 + sum_of(held@)
            &&& run.stats.connections == 0
            &&& r->Ok_0.mark.prefix == run.written && r->Ok_0.mark.bytes == run.base
        },
{
}

/// Parts are joined in their order: the next one is the first that is not in the file,
/// once it is whole. No other one is, however soon it is whole.
pub proof fn law_parts_are_joined_in_order(run: PlaylistRun, i: usize)
    requires
        run.wf(),
    ensures
        run.joinable() == Some(i) ==> i == run.written && i < run.total_segments && run.whole@[i as int],
        run.written < run.total_segments && run.whole@[run.written as int] ==> run.joinable() == Some(
            run.written,
        ),
        run.written < run.total_segments && !run.whole@[run.written as int] ==> run.joinable() is None,
        run.written == run.total_segments ==> run.joinable() is None,
{
}

} // verus!

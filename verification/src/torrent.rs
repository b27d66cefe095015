//! Torrents: which pieces belong to which files, and where peers are found.

use vstd::prelude::*;

use crate::bits::{bit_at, bitfield_bit, byte_count, clear_bits, set_bit};
use crate::lists::{copy_list, put_text, with_text};
use crate::manifest::string_texts;
use crate::pieces::{count_where, lemma_count_bounds};
use crate::text::{chars_of, has_prefix, starts_with};

verus! {

/// A file of a torrent.
pub struct FileEntry {
    /// Path below the download directory.
    pub path: String,
    pub length: u64,
}

/// What a torrent describes.
pub struct Info {
    pub name: String,
    pub piece_length: u64,
    /// Number of pieces.
    pub pieces: u32,
    pub files: Vec<FileEntry>,
    /// Whether the torrent describes a directory of files rather than a single file.
    pub multi_file: bool,
    /// Whether peers may only come from the torrent's own trackers.
    pub private: bool,
}

/// A torrent.
pub struct TorrentMeta {
    pub info: Info,
    pub info_hash: Vec<u8>,
    pub announce: Option<String>,
    pub announce_list: Vec<Vec<String>>,
    /// The torrent file itself, if there was one.
    pub raw: Option<Vec<u8>>,
}

/// Bytes before file `i`.
pub open spec fn file_start(files: Seq<FileEntry>, i: int) -> int
    decreases i,
{
    if i <= 0 {
        0
    } else {
        file_start(files, i - 1) + files[i - 1].length
    }
}

/// Bytes behind file `i`.
pub open spec fn file_end(files: Seq<FileEntry>, i: int) -> int {
    file_start(files, i) + files[i].length
}

pub proof fn lemma_file_start_le(files: Seq<FileEntry>, i: int, j: int)
    requires
        0 <= i <= j <= files.len(),
    ensures
        0 <= file_start(files, i) <= file_start(files, j),
    decreases j,
{
    if j > 0 {
        if i < j {
            lemma_file_start_le(files, i, j - 1);
        } else {
            lemma_file_start_le(files, i - 1, j - 1);
        }
    }
}

/// Whether a file is wanted; without a selection every file is.
pub open spec fn is_wanted(sel: Option<Seq<usize>>, i: int) -> bool {
    match sel {
        None => true,
        Some(s) => exists|k: int| 0 <= k < s.len() && #[trigger] s[k] == i,
    }
}

/// The selected places.
pub open spec fn sel_view(sel: Option<&Vec<usize>>) -> Option<Seq<usize>> {
    match sel {
        None => None,
        Some(s) => Some(s@),
    }
}

/// Whether a file is wanted; without a selection every file is.
pub fn file_wanted(sel: Option<&Vec<usize>>, i: usize) -> (r: bool)
    ensures
        r == is_wanted(sel_view(sel), i as int),
{
    match sel {
        None => true,
        Some(s) => {
            let mut k: usize = 0;
            while k < s.len()
                invariant
                    k <= s@.len(),
                    sel == Some(s),
                    forall|j: int| 0 <= j < k ==> s@[j] != i,
                decreases s@.len() - k,
            {
                if s[k] == i {
                    proof {
                        let seen: Seq<usize> = s@;
                        assert(seen[k as int] == i);
                        assert(is_wanted(Some(seen), i as int));
                    }
                    return true;
                }
                k = k + 1;
            }
            false
        },
    }
}

impl Info {
    /// The files together fit a 64-bit length.
    pub open spec fn wf(&self) -> bool {
        file_start(self.files@, self.files@.len() as int) <= u64::MAX
    }

    /// Length of all files together.
    pub open spec fn total(&self) -> int {
        file_start(self.files@, self.files@.len() as int)
    }

    /// Length of all files together.
    pub fn total_length(&self) -> (r: u64)
        requires
            self.wf(),
        ensures
            r == self.total(),
    {
        let mut sum: u64 = 0;
        let mut i: usize = 0;
        while i < self.files.len()
            invariant
                i <= self.files@.len(),
                self.wf(),
                sum == file_start(self.files@, i as int),
            decreases self.files@.len() - i,
        {
            proof {
                lemma_file_start_le(self.files@, i + 1, self.files@.len() as int);
            }
            sum = sum + self.files[i].length;
            i = i + 1;
        }
        sum
    }

    /// Whether byte `x` of the torrent lies in a finished piece.
    pub open spec fn byte_done(&self, bitfield: Seq<u8>) -> spec_fn(int) -> bool {
        |x: int| bit_at(bitfield, x / self.piece_length as int)
    }

    /// Finished bytes of file `i`: those in finished pieces. Without pieces there are
    /// none.
    pub open spec fn file_done(&self, bitfield: Seq<u8>, i: int) -> int {
        if self.piece_length == 0 {
            0
        } else {
            count_where(
                file_start(self.files@, i),
                file_end(self.files@, i),
                self.byte_done(bitfield),
            )
        }
    }

    /// Finished bytes of file `i` as they are shown. Files that are not wanted have
    /// none. Without a bit field the whole files count once the task is complete.
    pub open spec fn shown_done(
        &self,
        bitfield: Seq<u8>,
        sel: Option<Seq<usize>>,
        complete: bool,
        i: int,
    ) -> int {
        if !is_wanted(sel, i) {
            0
        } else if bitfield.len() == 0 {
            if complete { self.files@[i].length as int } else { 0 }
        } else {
            self.file_done(bitfield, i)
        }
    }

    /// Counts the finished bytes of one file.
    fn count_done(&self, bitfield: &Vec<u8>, i: usize, start: u64) -> (r: u64)
        requires
            self.wf(),
            i < self.files@.len(),
            start == file_start(self.files@, i as int),
            self.piece_length > 0,
        ensures
            r == self.file_done(bitfield@, i as int),
    {
        proof {
            lemma_file_start_le(self.files@, i + 1, self.files@.len() as int);
        }
        let end: u64 = start + self.files[i].length;
        let pl: u64 = self.piece_length;
        let ghost pred = self.byte_done(bitfield@);
        let mut at: u64 = start;
        let mut sum: u64 = 0;
        while at < end
            invariant
                start <= at <= end,
                pl == self.piece_length,
                pl > 0,
                pred == self.byte_done(bitfield@),
                sum == count_where(start as int, at as int, pred),
                sum <= at - start,
            decreases end - at,
        {
            let p: u64 = at / pl;
            let left: u64 = pl - at % pl;
            let next: u64 = if left < end - at { at + left } else { end };
            proof {
                lemma_same_piece(at as int, next as int, pl as int);
                lemma_count_split(start as int, at as int, next as int, pred);
            }
            if bitfield_bit(bitfield, p) {
                proof {
                    assert forall|x: int| at <= x < next implies #[trigger] pred(x) by {
                        assert(x / pl as int == p);
                    }
                    lemma_count_bounds(at as int, next as int, pred);
                }
                sum = sum + (next - at);
            } else {
                proof {
                    assert forall|x: int| at <= x < next implies !#[trigger] pred(x) by {
                        assert(x / pl as int == p);
                    }
                    lemma_count_bounds(at as int, next as int, pred);
                }
            }
            at = next;
        }
        sum
    }

    /// Finished bytes of every file.
    ///
    /// A piece that spans two files counts for both, each with its own part. Files that
    /// are not wanted have none: of a shared piece they keep nothing.
    pub fn files_done_bytes(&self, bitfield: &Vec<u8>, sel: Option<&Vec<usize>>, complete: bool) -> (r:
        Vec<u64>)
        requires
            self.wf(),
        ensures
            r@.len() == self.files@.len(),
            forall|i: int|
                0 <= i < r@.len() ==> #[trigger] r@[i] == self.shown_done(
                    bitfield@,
                    sel_view(sel),
                    complete,
                    i,
                ),
    {
        let mut out: Vec<u64> = Vec::new();
        let mut start: u64 = 0;
        let mut i: usize = 0;
        while i < self.files.len()
            invariant
                i <= self.files@.len(),
                self.wf(),
                out@.len() == i,
                start == file_start(self.files@, i as int),
                forall|k: int|
                    0 <= k < i ==> #[trigger] out@[k] == self.shown_done(
                        bitfield@,
                        sel_view(sel),
                        complete,
                        k,
                    ),
            decreases self.files@.len() - i,
        {
            proof {
                lemma_file_start_le(self.files@, i + 1, self.files@.len() as int);
            }
            let done: u64 = if !file_wanted(sel, i) {
                0
            } else if bitfield.len() == 0 {
                if complete {
                    self.files[i].length
                } else {
                    0
                }
            } else if self.piece_length == 0 {
                0
            } else {
                self.count_done(bitfield, i, start)
            };
            out.push(done);
            start = start + self.files[i].length;
            i = i + 1;
        }
        out
    }

    /// Whether file `i` reaches into piece `p`.
    pub open spec fn reaches(&self, i: int, p: int) -> bool {
        &&& self.files@[i].length > 0
        &&& file_start(self.files@, i) / self.piece_length as int <= p
        &&& p <= (file_end(self.files@, i) - 1) / self.piece_length as int
    }

    /// Whether one of the first `n` files is wanted and reaches into piece `p`.
    pub open spec fn piece_wanted(&self, sel: Seq<usize>, n: int, p: int) -> bool {
        exists|i: int| 0 <= i < n && is_wanted(Some(sel), i) && #[trigger] self.reaches(i, p)
    }

    /// The bit field of the pieces that must be fetched: those that a wanted file
    /// reaches into. Empty without a selection, where every piece must be.
    pub fn wanted_bitfield(&self, sel: Option<&Vec<usize>>) -> (r: Vec<u8>)
        requires
            self.wf(),
        ensures
            sel is None || self.pieces == 0 || self.piece_length == 0 ==> r@.len() == 0,
            sel is Some && self.pieces > 0 && self.piece_length > 0 ==> {
                &&& r@.len() == byte_count(self.pieces as int)
                &&& forall|p: int|
                    0 <= p ==> #[trigger] bit_at(r@, p) == (p < self.pieces && self.piece_wanted(
                        sel->0@,
                        self.files@.len() as int,
                        p,
                    ))
            },
    {
        let Some(s) = sel else {
            return Vec::new();
        };
        if self.pieces == 0 || self.piece_length == 0 {
            return Vec::new();
        }
        let count: usize = self.pieces as usize;
        let pl: u64 = self.piece_length;
        let mut bf = clear_bits(count);
        let mut start: u64 = 0;
        let mut i: usize = 0;
        while i < self.files.len()
            invariant
                i <= self.files@.len(),
                self.wf(),
                pl == self.piece_length,
                pl > 0,
                count == self.pieces,
                count > 0,
                sel == Some(s),
                bf@.len() == byte_count(count as int),
                start == file_start(self.files@, i as int),
                forall|p: int|
                    0 <= p ==> #[trigger] bit_at(bf@, p) == (p < count && self.piece_wanted(
                        s@,
                        i as int,
                        p,
                    )),
            decreases self.files@.len() - i,
        {
            proof {
                lemma_file_start_le(self.files@, i + 1, self.files@.len() as int);
            }
            let len: u64 = self.files[i].length;
            let ghost before = bf@;
            if len > 0 && file_wanted(sel, i) {
                let first: u64 = start / pl;
                let last: u64 = (start + (len - 1)) / pl;
                assert(last == (file_end(self.files@, i as int) - 1) / pl as int);
                let stop: u64 = if last < count as u64 - 1 { last } else { count as u64 - 1 };
                let mut p: u64 = first;
                while p <= stop
                    invariant
                        first <= p,
                        p <= stop + 1 || p == first,
                        stop < count,
                        count == self.pieces,
                        bf@.len() == byte_count(count as int),
                        forall|q: int|
                            0 <= q ==> #[trigger] bit_at(bf@, q) == (bit_at(before, q) || (first <= q < p
                                && q <= stop)),
                    decreases stop + 1 - p,
                {
                    set_bit(&mut bf, p as usize);
                    p = p + 1;
                }
                proof {
                    assert forall|q: int| 0 <= q implies #[trigger] bit_at(bf@, q) == (q < count
                        && self.piece_wanted(s@, i + 1, q)) by {
                        assert(bit_at(before, q) == (q < count && self.piece_wanted(s@, i as int, q)));
                        if self.piece_wanted(s@, i + 1, q) && !self.piece_wanted(s@, i as int, q) {
                            let k = choose|k: int|
                                0 <= k < i + 1 && is_wanted(Some(s@), k) && #[trigger] self.reaches(k, q);
                            assert(k == i);
                        }
                        if self.piece_wanted(s@, i as int, q) {
                            let k = choose|k: int|
                                0 <= k < i && is_wanted(Some(s@), k) && #[trigger] self.reaches(k, q);
                            assert(self.reaches(k, q));
                        }
                        if first <= q <= last {
                            assert(self.reaches(i as int, q));
                        }
                    }
                }
            } else {
                proof {
                    assert forall|q: int| 0 <= q implies #[trigger] bit_at(bf@, q) == (q < count
                        && self.piece_wanted(s@, i + 1, q)) by {
                        if self.piece_wanted(s@, i + 1, q) {
                            let k = choose|k: int|
                                0 <= k < i + 1 && is_wanted(Some(s@), k) && #[trigger] self.reaches(k, q);
                            assert(k < i);
                        }
                        if self.piece_wanted(s@, i as int, q) {
                            let k = choose|k: int|
                                0 <= k < i && is_wanted(Some(s@), k) && #[trigger] self.reaches(k, q);
                            assert(self.reaches(k, q));
                        }
                    }
                }
            }
            start = start + len;
            i = i + 1;
        }
        bf
    }
}

proof fn lemma_same_piece(at: int, next: int, pl: int)
    requires
        pl > 0,
        0 <= at < next,
        next <= at + (pl - at % pl),
    ensures
        forall|x: int| at <= x < next ==> #[trigger] (x / pl) == at / pl,
{
    assert forall|x: int| at <= x < next implies #[trigger] (x / pl) == at / pl by {
        assert(x / pl == at / pl) by (nonlinear_arith)
            requires
                pl > 0,
                0 <= at <= x,
                x < at + (pl - at % pl),
        ;
    }
}

/// Counts over two neighbouring ranges add up.
pub proof fn lemma_count_split(a: int, b: int, c: int, pred: spec_fn(int) -> bool)
    requires
        a <= b <= c,
    ensures
        count_where(a, c, pred) == count_where(a, b, pred) + count_where(b, c, pred),
    decreases c - b,
{
    if b < c {
        lemma_count_split(a, b, c - 1, pred);
    }
}

/// Sum of the finished bytes of the first `n` files.
pub open spec fn done_sum(info: Info, bitfield: Seq<u8>, n: int) -> int
    decreases n,
{
    if n <= 0 {
        0
    } else {
        done_sum(info, bitfield, n - 1) + info.file_done(bitfield, n - 1)
    }
}

/// The finished bytes of all files add up to the bytes that the finished pieces cover.
pub proof fn law_files_add_up(info: Info, bitfield: Seq<u8>)
    requires
        info.piece_length > 0,
    ensures
        done_sum(info, bitfield, info.files@.len() as int) == count_where(
            0,
            info.total(),
            info.byte_done(bitfield),
        ),
{
    lemma_files_add_up(info, bitfield, info.files@.len() as int);
}

proof fn lemma_files_add_up(info: Info, bitfield: Seq<u8>, n: int)
    requires
        info.piece_length > 0,
        0 <= n <= info.files@.len(),
    ensures
        done_sum(info, bitfield, n) == count_where(
            0,
            file_start(info.files@, n),
            info.byte_done(bitfield),
        ),
    decreases n,
{
    if n > 0 {
        lemma_files_add_up(info, bitfield, n - 1);
        lemma_file_start_le(info.files@, 0, n - 1);
        lemma_count_split(
            0,
            file_start(info.files@, n - 1),
            file_start(info.files@, n),
            info.byte_done(bitfield),
        );
    }
}

/// If every file is wanted, every piece must be fetched.
pub proof fn law_full_selection_wants_every_piece(info: Info, sel: Seq<usize>, p: int)
    requires
        info.piece_length > 0,
        info.pieces == crate::pieces::piece_count(info.total(), info.piece_length as int),
        0 <= p < info.pieces,
        forall|i: int| 0 <= i < info.files@.len() ==> is_wanted(Some(sel), i),
    ensures
        info.piece_wanted(sel, info.files@.len() as int, p),
{
    let pl = info.piece_length as int;
    let x = p * pl;
    assert(0 <= x < info.total()) by (nonlinear_arith)
        requires
            pl > 0,
            0 <= p < (info.total() + pl - 1) / pl,
            x == p * pl,
    ;
    let i = lemma_file_of(info.files@, x, info.files@.len() as int);
    assert(x / pl == p) by (nonlinear_arith)
        requires
            pl > 0,
            x == p * pl,
    ;
    let a = file_start(info.files@, i);
    let b = file_end(info.files@, i) - 1;
    assert(a / pl <= x / pl <= b / pl) by (nonlinear_arith)
        requires
            pl > 0,
            a <= x <= b,
    ;
    assert(info.reaches(i, p));
}

proof fn lemma_file_of(files: Seq<FileEntry>, x: int, n: int) -> (i: int)
    requires
        0 <= n <= files.len(),
        0 <= x < file_start(files, n),
    ensures
        0 <= i < n,
        file_start(files, i) <= x < file_end(files, i),
    decreases n,
{
    if n > 0 && x >= file_start(files, n - 1) {
        n - 1
    } else {
        lemma_file_of(files, x, n - 1)
    }
}

/// A piece that no wanted file reaches into need not be fetched, and no byte of a file
/// that is not wanted is shown as finished.
pub proof fn law_unwanted_files_show_nothing(
    info: Info,
    bitfield: Seq<u8>,
    sel: Option<Seq<usize>>,
    complete: bool,
    i: int,
)
    requires
        !is_wanted(sel, i),
    ensures
        info.shown_done(bitfield, sel, complete, i) == 0,
{
}

// ---------------------------------------------------------------------------
// Trackers
// ---------------------------------------------------------------------------

/// A list with some texts added, each one once.
pub open spec fn with_texts(s: Seq<Seq<char>>, more: Seq<Seq<char>>) -> Seq<Seq<char>>
    decreases more.len(),
{
    if more.len() == 0 {
        s
    } else {
        with_text(with_texts(s, more.drop_last()), more.last())
    }
}

/// Several lists one after the other.
pub open spec fn flat(tiers: Seq<Vec<String>>) -> Seq<Seq<char>>
    decreases tiers.len(),
{
    if tiers.len() == 0 {
        Seq::empty()
    } else {
        flat(tiers.drop_last()) + string_texts(tiers.last()@)
    }
}

/// The trackers that a torrent names.
pub open spec fn own_trackers(meta: TorrentMeta) -> Seq<Seq<char>> {
    match meta.announce {
        Some(a) => seq![a@] + flat(meta.announce_list@),
        None => flat(meta.announce_list@),
    }
}

/// The trackers of an optional torrent.
pub open spec fn meta_trackers(meta: Option<TorrentMeta>) -> Seq<Seq<char>> {
    match meta {
        Some(m) => own_trackers(m),
        None => Seq::empty(),
    }
}

/// Adds texts to a list, each one once.
pub fn put_texts(v: &mut Vec<String>, more: &Vec<String>)
    ensures
        string_texts(final(v)@) == with_texts(string_texts(old(v)@), string_texts(more@)),
{
    let ghost start = string_texts(v@);
    let ghost all = string_texts(more@);
    let mut i: usize = 0;
    assert(all.take(0) =~= Seq::<Seq<char>>::empty());
    while i < more.len()
        invariant
            i <= more@.len(),
            all == string_texts(more@),
            string_texts(v@) == with_texts(start, all.take(i as int)),
        decreases more@.len() - i,
    {
        proof {
            assert(all.take(i + 1).drop_last() =~= all.take(i as int));
            assert(all.take(i + 1).last() == more@[i as int]@);
        }
        put_text(v, more[i].as_str());
        i = i + 1;
    }
    assert(all.take(i as int) =~= all);
}

impl TorrentMeta {
    /// The trackers that the torrent names, in order.
    pub fn trackers(&self) -> (r: Vec<String>)
        ensures
            string_texts(r@) == own_trackers(*self),
    {
        let mut out: Vec<String> = Vec::new();
        match &self.announce {
            Some(a) => {
                out.push(a.clone());
                assert(string_texts(out@) =~= seq![a@]);
            },
            None => {
                assert(string_texts(out@) =~= Seq::<Seq<char>>::empty());
            },
        }
        let ghost head = string_texts(out@);
        let mut t: usize = 0;
        assert(self.announce_list@.take(0) =~= Seq::<Vec<String>>::empty());
        assert(head + flat(self.announce_list@.take(0)) =~= head);
        while t < self.announce_list.len()
            invariant
                t <= self.announce_list@.len(),
                string_texts(out@) == head + flat(self.announce_list@.take(t as int)),
            decreases self.announce_list@.len() - t,
        {
            let tier = &self.announce_list[t];
            let ghost before = string_texts(out@);
            let ghost all = string_texts(tier@);
            let mut i: usize = 0;
            assert(before + all.take(0) =~= before);
            while i < tier.len()
                invariant
                    i <= tier@.len(),
                    all == string_texts(tier@),
                    string_texts(out@) == before + all.take(i as int),
                decreases tier@.len() - i,
            {
                let ghost so_far = out@;
                out.push(tier[i].clone());
                proof {
                    assert(string_texts(out@) =~= string_texts(so_far).push(tier@[i as int]@));
                    assert((before + all.take(i as int)).push(all[i as int]) =~= before + all.take(i + 1));
                }
                i = i + 1;
            }
            proof {
                let l = self.announce_list@;
                assert(all.take(i as int) =~= all);
                assert(l.take(t + 1).drop_last() =~= l.take(t as int));
                assert(l.take(t + 1).last() == l[t as int]);
                assert(head + flat(l.take(t as int)) + all =~= head + (flat(l.take(t as int)) + all));
            }
            t = t + 1;
        }
        assert(self.announce_list@.take(t as int) =~= self.announce_list@);
        assert(match self.announce {
            Some(a) => head =~= seq![a@],
            None => head + flat(self.announce_list@) =~= flat(self.announce_list@),
        });
        out
    }
}

/// Every tracker of a task once: the torrent's own, those added to the task, and the
/// global ones.
pub open spec fn all_trackers(
    meta: Option<TorrentMeta>,
    task: Seq<Seq<char>>,
    global: Seq<Seq<char>>,
) -> Seq<Seq<char>> {
    with_texts(with_texts(with_texts(Seq::empty(), meta_trackers(meta)), task), global)
}

/// Every tracker of a task once.
pub fn merge_trackers(meta: &Option<TorrentMeta>, task: &Vec<String>, global: &Vec<String>) -> (r: Vec<
    String,
>)
    ensures
        string_texts(r@) == all_trackers(*meta, string_texts(task@), string_texts(global@)),
{
    let mut out: Vec<String> = Vec::new();
    assert(string_texts(out@) =~= Seq::<Seq<char>>::empty());
    match meta {
        Some(m) => {
            let own = m.trackers();
            put_texts(&mut out, &own);
        },
        None => {},
    }
    put_texts(&mut out, task);
    put_texts(&mut out, global);
    out
}

/// The addresses that are announced to: the torrent's own with those added to the task,
/// or those of the task alone while there is no torrent, and the global ones.
pub open spec fn announce_list(
    meta: Option<TorrentMeta>,
    task: Seq<Seq<char>>,
    global: Seq<Seq<char>>,
) -> Seq<Seq<char>> {
    match meta {
        Some(m) => with_texts(with_texts(own_trackers(m), task), global),
        None => with_texts(task, global),
    }
}

/// Whether a tracker is reached by UDP.
pub open spec fn is_udp(url: Seq<char>) -> bool {
    has_prefix(url, "udp://"@)
}

/// The addresses of a list that are reached by UDP, or those that are not.
pub open spec fn by_kind(s: Seq<Seq<char>>, udp: bool) -> Seq<Seq<char>>
    decreases s.len(),
{
    if s.len() == 0 {
        s
    } else {
        let rest = by_kind(s.drop_last(), udp);
        if is_udp(s.last()) == udp { rest.push(s.last()) } else { rest }
    }
}

/// The addresses that are announced to, first those reached by HTTP and then those
/// reached by UDP.
pub fn announce_urls(meta: &Option<TorrentMeta>, task: &Vec<String>, global: &Vec<String>) -> (r: (
    Vec<String>,
    Vec<String>,
))
    ensures
        ({
            let all = announce_list(*meta, string_texts(task@), string_texts(global@));
            &&& string_texts(r.0@) == by_kind(all, false)
            &&& string_texts(r.1@) == by_kind(all, true)
        }),
{
    let mut list: Vec<String> = match meta {
        Some(m) => {
            let mut own = m.trackers();
            put_texts(&mut own, task);
            own
        },
        None => copy_list(task),
    };
    put_texts(&mut list, global);
    let ghost all = string_texts(list@);
    let mut http: Vec<String> = Vec::new();
    let mut udp: Vec<String> = Vec::new();
    let mut i: usize = 0;
    assert(all.take(0) =~= Seq::<Seq<char>>::empty());
    assert(string_texts(http@) =~= Seq::<Seq<char>>::empty());
    assert(string_texts(udp@) =~= Seq::<Seq<char>>::empty());
    while i < list.len()
        invariant
            i <= list@.len(),
            all == string_texts(list@),
            string_texts(http@) == by_kind(all.take(i as int), false),
            string_texts(udp@) == by_kind(all.take(i as int), true),
        decreases list@.len() - i,
    {
        let ghost h = http@;
        let ghost u = udp@;
        proof {
            assert(all.take(i + 1).drop_last() =~= all.take(i as int));
            assert(all.take(i + 1).last() == list@[i as int]@);
        }
        if starts_with(&chars_of(list[i].as_str()), "udp://") {
            udp.push(list[i].clone());
            assert(string_texts(udp@) =~= string_texts(u).push(list@[i as int]@));
        } else {
            http.push(list[i].clone());
            assert(string_texts(http@) =~= string_texts(h).push(list@[i as int]@));
        }
        i = i + 1;
    }
    assert(all.take(i as int) =~= all);
    (http, udp)
}

// ---------------------------------------------------------------------------
// What holds of files and trackers
// ---------------------------------------------------------------------------

/// A file reaches into a piece if and only if one of its bytes lies there.
pub proof fn law_file_reaches_where_its_bytes_lie(info: Info, i: int, p: int)
    requires
        info.piece_length > 0,
        0 <= i < info.files@.len(),
        p >= 0,
    ensures
        info.reaches(i, p) <==> exists|x: int|
            file_start(info.files@, i) <= x < file_end(info.files@, i) && #[trigger] (x
                / info.piece_length as int) == p,
{
    let n = info.piece_length as int;
    let a = file_start(info.files@, i);
    let b = file_end(info.files@, i);
    lemma_start_nonneg(info.files@, i);
    if info.reaches(i, p) {
        let x = if a / n == p { a } else { p * n };
        assert(a <= x < b && x / n == p) by (nonlinear_arith)
            requires
                n > 0,
                a >= 0,
                a < b,
                a / n <= p,
                p <= (b - 1) / n,
                x == if a / n == p { a } else { p * n },
        ;
    }
    if exists|x: int| a <= x < b && #[trigger] (x / n) == p {
        let x = choose|x: int| a <= x < b && #[trigger] (x / n) == p;
        assert(a / n <= p && p <= (b - 1) / n) by (nonlinear_arith)
            requires
                n > 0,
                a <= x < b,
                x / n == p,
        ;
    }
}

proof fn lemma_start_nonneg(files: Seq<FileEntry>, i: int)
    ensures
        file_start(files, i) >= 0,
    decreases i,
{
    if i > 0 {
        lemma_start_nonneg(files, i - 1);
    }
}

/// The files of a torrent follow each other without a gap, in their order.
pub proof fn law_files_follow_each_other(files: Seq<FileEntry>, i: int)
    requires
        0 <= i < files.len(),
    ensures
        file_start(files, 0) == 0,
        file_end(files, i) - file_start(files, i) == files[i].length,
        file_start(files, i + 1) == file_end(files, i),
{
}

proof fn lemma_all_counted(lo: int, hi: int, pred: spec_fn(int) -> bool)
    requires
        lo <= hi,
        forall|x: int| lo <= x < hi ==> #[trigger] pred(x),
    ensures
        count_where(lo, hi, pred) == hi - lo,
    decreases hi - lo,
{
    if lo < hi {
        lemma_all_counted(lo, hi - 1, pred);
        assert(pred(hi - 1));
    }
}

proof fn lemma_none_counted(lo: int, hi: int, pred: spec_fn(int) -> bool)
    requires
        lo <= hi,
        forall|x: int| lo <= x < hi ==> !#[trigger] pred(x),
    ensures
        count_where(lo, hi, pred) == 0,
    decreases hi - lo,
{
    if lo < hi {
        lemma_none_counted(lo, hi - 1, pred);
        assert(!pred(hi - 1));
    }
}

/// A file is done to its full length once all pieces into which it reaches are there, and
/// has nothing while none of them is.
pub proof fn law_file_is_done_with_its_pieces(info: Info, bitfield: Seq<u8>, i: int)
    requires
        info.piece_length > 0,
        0 <= i < info.files@.len(),
    ensures
        (forall|p: int| p >= 0 && #[trigger] info.reaches(i, p) ==> bit_at(bitfield, p))
            ==> info.file_done(bitfield, i) == info.files@[i].length,
        (forall|p: int| p >= 0 && #[trigger] info.reaches(i, p) ==> !bit_at(bitfield, p))
            ==> info.file_done(bitfield, i) == 0,
{
    let n = info.piece_length as int;
    let a = file_start(info.files@, i);
    let b = file_end(info.files@, i);
    let pred = info.byte_done(bitfield);
    lemma_start_nonneg(info.files@, i);
    assert forall|x: int| a <= x < b implies x / n >= 0 && #[trigger] info.reaches(i, x / n) by {
        assert(x / n >= 0) by (nonlinear_arith)
            requires
                x >= 0,
                n > 0,
        ;
        law_file_reaches_where_its_bytes_lie(info, i, x / n);
    }
    if forall|p: int| p >= 0 && #[trigger] info.reaches(i, p) ==> bit_at(bitfield, p) {
        assert forall|x: int| a <= x < b implies #[trigger] pred(x) by {
            assert(info.reaches(i, x / n));
        }
        lemma_all_counted(a, b, pred);
    }
    if forall|p: int| p >= 0 && #[trigger] info.reaches(i, p) ==> !bit_at(bitfield, p) {
        assert forall|x: int| a <= x < b implies !#[trigger] pred(x) by {
            assert(info.reaches(i, x / n));
        }
        lemma_none_counted(a, b, pred);
    }
}

/// A wanted file shows what is done of it; before the first piece map it shows all of its
/// bytes if the task is complete, and none else.
pub proof fn law_wanted_file_shows_its_progress(
    info: Info,
    bitfield: Seq<u8>,
    sel: Option<Seq<usize>>,
    complete: bool,
    i: int,
)
    requires
        is_wanted(sel, i),
        0 <= i < info.files@.len(),
    ensures
        bitfield.len() > 0 ==> info.shown_done(bitfield, sel, complete, i) == info.file_done(bitfield, i),
        bitfield.len() == 0 && complete ==> info.shown_done(bitfield, sel, complete, i)
            == info.files@[i].length,
        bitfield.len() == 0 && !complete ==> info.shown_done(bitfield, sel, complete, i) == 0,
{
}

proof fn lemma_with_texts(s: Seq<Seq<char>>, more: Seq<Seq<char>>, u: Seq<char>)
    ensures
        with_texts(s, more).contains(u) <==> s.contains(u) || more.contains(u),
        s.no_duplicates() ==> with_texts(s, more).no_duplicates(),
        s.len() <= with_texts(s, more).len(),
        s == with_texts(s, more).take(s.len() as int),
    decreases more.len(),
{
    if more.len() == 0 {
        assert(s.take(s.len() as int) =~= s);
    } else {
        let front = more.drop_last();
        let x = more.last();
        lemma_with_texts(s, front, u);
        lemma_with_texts(s, front, x);
        let mid = with_texts(s, front);
        let all = with_texts(s, more);
        assert(more.contains(u) <==> front.contains(u) || u == x) by {
            if more.contains(u) {
                let k = choose|k: int| 0 <= k < more.len() && more[k] == u;
                if k < front.len() {
                    assert(front[k] == u);
                }
            }
            if front.contains(u) {
                let k = choose|k: int| 0 <= k < front.len() && front[k] == u;
                assert(more[k] == u);
            }
            assert(more[more.len() - 1] == x);
        }
        if mid.contains(x) {
            assert(all == mid);
        } else {
            assert(all == mid.push(x));
            assert(all.contains(u) <==> mid.contains(u) || u == x) by {
                if all.contains(u) {
                    let k = choose|k: int| 0 <= k < all.len() && all[k] == u;
                    if k < mid.len() {
                        assert(mid[k] == u);
                    }
                }
                if mid.contains(u) {
                    let k = choose|k: int| 0 <= k < mid.len() && mid[k] == u;
                    assert(all[k] == u);
                }
                assert(all[mid.len() as int] == x);
            }
            assert(all.take(s.len() as int) =~= mid.take(s.len() as int));
            if s.no_duplicates() {
                assert forall|i: int, j: int|
                    0 <= i < all.len() && 0 <= j < all.len() && i != j implies all[i] != all[j] by {
                    if i < mid.len() && j < mid.len() {
                        assert(mid[i] != mid[j]);
                    } else if i < mid.len() {
                        assert(mid.contains(mid[i]));
                    } else {
                        assert(mid.contains(mid[j]));
                    }
                }
            }
        }
    }
}

/// The trackers of a task are those of its torrent, its own and those of the engine, each
/// one once.
pub proof fn law_every_tracker_once(
    meta: Option<TorrentMeta>,
    task: Seq<Seq<char>>,
    global: Seq<Seq<char>>,
    u: Seq<char>,
)
    ensures
        all_trackers(meta, task, global).no_duplicates(),
        all_trackers(meta, task, global).contains(u) <==> task.contains(u) || global.contains(u) || (meta
            is Some && own_trackers(meta->0).contains(u)),
        announce_list(meta, task, global).contains(u) <==> task.contains(u) || global.contains(u) || (
        meta is Some && own_trackers(meta->0).contains(u)),
{
    let none = Seq::<Seq<char>>::empty();
    let a = with_texts(none, meta_trackers(meta));
    let b = with_texts(a, task);
    lemma_with_texts(none, meta_trackers(meta), u);
    lemma_with_texts(a, task, u);
    lemma_with_texts(b, global, u);
    if meta is Some {
        let own = own_trackers(meta->0);
        lemma_with_texts(own, task, u);
        lemma_with_texts(with_texts(own, task), global, u);
    } else {
        lemma_with_texts(task, global, u);
    }
}

/// The trackers that a torrent names come first, its main one in front.
pub proof fn law_main_tracker_comes_first(m: TorrentMeta, task: Seq<Seq<char>>, global: Seq<Seq<char>>)
    requires
        m.announce is Some,
    ensures
        announce_list(Some(m), task, global).len() > 0,
        announce_list(Some(m), task, global)[0] == m.announce->0@,
{
    let own = own_trackers(m);
    lemma_with_texts(own, task, own[0]);
    let b = with_texts(own, task);
    lemma_with_texts(b, global, own[0]);
    assert(own[0] == m.announce->0@);
    assert(b.take(own.len() as int)[0] == b[0]);
    let c = with_texts(b, global);
    assert(c.take(b.len() as int)[0] == c[0]);
}

/// The addresses are parted by how they are reached: those that begin so by UDP, all others
/// not, and none is lost.
pub proof fn law_trackers_are_parted_by_kind(s: Seq<Seq<char>>, u: Seq<char>)
    ensures
        by_kind(s, true).contains(u) <==> s.contains(u) && has_prefix(u, "udp://"@),
        by_kind(s, false).contains(u) <==> s.contains(u) && !has_prefix(u, "udp://"@),
        by_kind(s, true).len() + by_kind(s, false).len() == s.len(),
    decreases s.len(),
{
    if s.len() > 0 {
        let front = s.drop_last();
        law_trackers_are_parted_by_kind(front, u);
        lemma_pushed_text(front, s.last(), u);
        assert(front.push(s.last()) =~= s);
        lemma_pushed_text(by_kind(front, true), s.last(), u);
        lemma_pushed_text(by_kind(front, false), s.last(), u);
    }
}

proof fn lemma_pushed_text(s: Seq<Seq<char>>, x: Seq<char>, u: Seq<char>)
    ensures
        s.push(x).contains(u) <==> s.contains(u) || u == x,
{
    let all = s.push(x);
    if all.contains(u) {
        let k = choose|k: int| 0 <= k < all.len() && all[k] == u;
        if k < s.len() {
            assert(s[k] == u);
        }
    }
    if s.contains(u) {
        let k = choose|k: int| 0 <= k < s.len() && s[k] == u;
        assert(all[k] == u);
    }
    assert(all[s.len() as int] == x);
}

} // verus!

//! Global trackers and where they come from.
//!
//! A tracker is in the list because the user added it, because a subscription provides
//! it, or both. It stays as long as one of these reasons holds. An address that a saved
//! list holds twice stays listed twice.

use vstd::prelude::*;

use crate::lists::{holds, lemma_without, put_text, take_out, with_text, without};
use crate::manifest::string_texts;
use crate::text::same_str;

verus! {

/// A subscription to a list of trackers.
pub struct TrackerSubscription {
    pub id: String,
    pub name: String,
    pub url: String,
    pub enabled: bool,
    /// Time of the last success in Unix seconds; zero if there was none.
    pub last_updated: u64,
    /// Trackers that the last success brought.
    pub last_count: usize,
    /// What went wrong last; empty after a success.
    pub last_error: String,
}

impl Clone for TrackerSubscription {
    fn clone(&self) -> (r: Self)
        ensures
            r == *self,
    {
        TrackerSubscription {
            id: self.id.clone(),
            name: self.name.clone(),
            url: self.url.clone(),
            enabled: self.enabled,
            last_updated: self.last_updated,
            last_count: self.last_count,
            last_error: self.last_error.clone(),
        }
    }
}

/// A global tracker and its reasons.
pub struct TrackerEntry {
    pub url: String,
    /// Whether the user added it.
    pub manual: bool,
    /// Subscriptions that provide it.
    pub subs: Vec<String>,
}

/// A global tracker and its reasons.
pub struct EntryView {
    pub url: Seq<char>,
    pub manual: bool,
    pub subs: Seq<Seq<char>>,
}

impl TrackerEntry {
    pub open spec fn view(&self) -> EntryView {
        EntryView { url: self.url@, manual: self.manual, subs: string_texts(self.subs@) }
    }
}

/// The views of some entries.
pub open spec fn entry_views(v: Seq<TrackerEntry>) -> Seq<EntryView> {
    Seq::new(v.len(), |i: int| v[i]@)
}

/// The addresses of some entries.
pub open spec fn urls_of(e: Seq<EntryView>) -> Seq<Seq<char>> {
    Seq::new(e.len(), |i: int| e[i].url)
}

/// Whether an entry has a reason to stay.
pub open spec fn has_reason(e: EntryView) -> bool {
    e.manual || e.subs.len() > 0
}

/// Whether an entry has a reason other than one subscription.
pub open spec fn has_other_reason(e: EntryView, id: Seq<char>) -> bool {
    e.manual || exists|s: Seq<char>| s != id && #[trigger] e.subs.contains(s)
}

/// An entry that a subscription no longer provides.
pub open spec fn unprovided(e: EntryView, id: Seq<char>) -> EntryView {
    EntryView { subs: without(e.subs, id), ..e }
}

/// An entry after a subscription stopped to provide what is not in `list`.
pub open spec fn lessened(e: EntryView, id: Seq<char>, list: Seq<Seq<char>>) -> EntryView {
    if list.contains(e.url) { e } else { unprovided(e, id) }
}

/// The list after a subscription stopped to provide what is not in `list`. Entries
/// without a reason go.
pub open spec fn withdrawn(e: Seq<EntryView>, id: Seq<char>, list: Seq<Seq<char>>) -> Seq<EntryView>
    decreases e.len(),
{
    if e.len() == 0 {
        e
    } else {
        let rest = withdrawn(e.drop_last(), id, list);
        let x = lessened(e.last(), id, list);
        if has_reason(x) { rest.push(x) } else { rest }
    }
}

/// The list without the entries of an address.
pub open spec fn dropped(e: Seq<EntryView>, url: Seq<char>) -> Seq<EntryView>
    decreases e.len(),
{
    if e.len() == 0 {
        e
    } else {
        let rest = dropped(e.drop_last(), url);
        if e.last().url == url { rest } else { rest.push(e.last()) }
    }
}

/// An entry after a subscription provides an address.
pub open spec fn enriched(e: EntryView, id: Seq<char>, url: Seq<char>) -> EntryView {
    if e.url == url { EntryView { subs: with_text(e.subs, id), ..e } } else { e }
}

/// The list after a subscription provides an address.
pub open spec fn provided(e: Seq<EntryView>, id: Seq<char>, url: Seq<char>) -> Seq<EntryView> {
    if urls_of(e).contains(url) {
        Seq::new(e.len(), |i: int| enriched(e[i], id, url))
    } else {
        e.push(EntryView { url, manual: false, subs: seq![id] })
    }
}

/// The list after a subscription provides some addresses.
pub open spec fn all_provided(e: Seq<EntryView>, id: Seq<char>, list: Seq<Seq<char>>) -> Seq<EntryView>
    decreases list.len(),
{
    if list.len() == 0 {
        e
    } else {
        provided(all_provided(e, id, list.drop_last()), id, list.last())
    }
}

/// The list after a subscription was refreshed and now provides exactly `list`.
pub open spec fn synced(e: Seq<EntryView>, id: Seq<char>, list: Seq<Seq<char>>) -> Seq<EntryView> {
    all_provided(withdrawn(e, id, list), id, list)
}

/// Every entry has a reason, and an address has the same reasons wherever it is listed.
pub open spec fn entries_wf(e: Seq<EntryView>) -> bool {
    &&& forall|i: int, j: int|
        0 <= i < j < e.len() && (#[trigger] e[i]).url == (#[trigger] e[j]).url ==> e[i] == e[j]
    &&& forall|i: int| 0 <= i < e.len() ==> has_reason(#[trigger] e[i])
}

proof fn lemma_unprovided(e: EntryView, id: Seq<char>)
    ensures
        has_reason(unprovided(e, id)) <==> has_other_reason(e, id),
        !unprovided(e, id).subs.contains(id),
{
    lemma_without(e.subs, id);
    let u = unprovided(e, id);
    if u.subs.len() > 0 {
        let s = u.subs[0];
        assert(u.subs.contains(s));
        assert(s != id);
        assert(e.subs.contains(s));
    }
    if exists|s: Seq<char>| s != id && #[trigger] e.subs.contains(s) {
        let s = choose|s: Seq<char>| s != id && #[trigger] e.subs.contains(s);
        assert(u.subs.contains(s));
    }
}

/// Whether some entry of an address stays when `id` no longer provides what is not in
/// `list`.
pub open spec fn stays(e: Seq<EntryView>, id: Seq<char>, list: Seq<Seq<char>>, url: Seq<char>) -> bool {
    exists|i: int|
        0 <= i < e.len() && (#[trigger] e[i]).url == url && (list.contains(url) || has_other_reason(
            e[i],
            id,
        ))
}

/// Whether an entry is one of the list, lessened.
spec fn comes_from(e: Seq<EntryView>, id: Seq<char>, list: Seq<Seq<char>>, x: EntryView) -> bool {
    exists|k: int| 0 <= k < e.len() && x == lessened(#[trigger] e[k], id, list)
}

proof fn lemma_withdrawn(e: Seq<EntryView>, id: Seq<char>, list: Seq<Seq<char>>)
    requires
        entries_wf(e),
    ensures
        entries_wf(withdrawn(e, id, list)),
        forall|u: Seq<char>| #[trigger] urls_of(withdrawn(e, id, list)).contains(u) <==> stays(e, id, list, u),
{
    lemma_withdrawn_from(e, id, list);
    let w = withdrawn(e, id, list);
    assert forall|i: int, j: int|
        0 <= i < j < w.len() && (#[trigger] w[i]).url == (#[trigger] w[j]).url implies w[i] == w[j] by {
        assert(comes_from(e, id, list, w[i]));
        assert(comes_from(e, id, list, w[j]));
        let a = choose|k: int| 0 <= k < e.len() && w[i] == lessened(#[trigger] e[k], id, list);
        let b = choose|k: int| 0 <= k < e.len() && w[j] == lessened(#[trigger] e[k], id, list);
        assert(e[a].url == e[b].url);
        if a < b {
            assert(e[a] == e[b]);
        } else if b < a {
            assert(e[b] == e[a]);
        }
    }
}

proof fn lemma_withdrawn_from(e: Seq<EntryView>, id: Seq<char>, list: Seq<Seq<char>>)
    requires
        forall|i: int| 0 <= i < e.len() ==> has_reason(#[trigger] e[i]),
    ensures
        ({
            let w = withdrawn(e, id, list);
            &&& forall|i: int| 0 <= i < w.len() ==> has_reason(#[trigger] w[i])
            &&& forall|i: int| 0 <= i < w.len() ==> comes_from(e, id, list, #[trigger] w[i])
            &&& forall|u: Seq<char>| #[trigger] urls_of(w).contains(u) <==> stays(e, id, list, u)
        }),
    decreases e.len(),
{
    if e.len() == 0 {
        assert forall|u: Seq<char>| #[trigger] urls_of(withdrawn(e, id, list)).contains(u) <==> stays(
            e,
            id,
            list,
            u,
        ) by {}
    } else {
        let front = e.drop_last();
        assert forall|i: int| 0 <= i < front.len() implies has_reason(#[trigger] front[i]) by {
            assert(has_reason(e[i]));
        }
        lemma_withdrawn_from(front, id, list);
        let rest = withdrawn(front, id, list);
        let last = e.last();
        let x = lessened(last, id, list);
        lemma_unprovided(last, id);
        assert(has_reason(e[e.len() - 1]));
        let all = withdrawn(e, id, list);
        assert forall|i: int| 0 <= i < all.len() implies has_reason(#[trigger] all[i]) by {
            if i < rest.len() {
                assert(all[i] == rest[i]);
            }
        }
        assert forall|i: int| 0 <= i < all.len() implies comes_from(e, id, list, #[trigger] all[i]) by {
            if i < rest.len() {
                assert(all[i] == rest[i]);
                assert(comes_from(front, id, list, rest[i]));
                let k = choose|k: int|
                    0 <= k < front.len() && rest[i] == lessened(#[trigger] front[k], id, list);
                assert(all[i] == lessened(e[k], id, list));
            } else {
                assert(all[i] == lessened(e[e.len() - 1], id, list));
            }
        }
        assert forall|u: Seq<char>| #[trigger] urls_of(all).contains(u) <==> stays(e, id, list, u) by {
            if urls_of(all).contains(u) {
                let i = choose|i: int| 0 <= i < all.len() && urls_of(all)[i] == u;
                if i < rest.len() {
                    assert(urls_of(rest)[i] == u);
                    assert(urls_of(rest).contains(u));
                    assert(stays(front, id, list, u));
                    let k = choose|k: int|
                        0 <= k < front.len() && (#[trigger] front[k]).url == u && (list.contains(u)
                            || has_other_reason(front[k], id));
                    assert(e[k] == front[k]);
                } else {
                    assert(e[e.len() - 1].url == u);
                }
            }
            if stays(e, id, list, u) {
                let k = choose|k: int|
                    0 <= k < e.len() && (#[trigger] e[k]).url == u && (list.contains(u)
                        || has_other_reason(e[k], id));
                if k < front.len() {
                    assert(front[k] == e[k]);
                    assert(stays(front, id, list, u));
                    assert(urls_of(rest).contains(u));
                    let i = choose|i: int| 0 <= i < rest.len() && urls_of(rest)[i] == u;
                    assert(urls_of(all)[i] == u);
                } else {
                    assert(has_reason(x));
                    assert(urls_of(all)[all.len() - 1] == u);
                }
            }
        }
    }
}

proof fn lemma_dropped(e: Seq<EntryView>, url: Seq<char>)
    ensures
        forall|i: int|
            0 <= i < dropped(e, url).len() ==> e.contains(#[trigger] dropped(e, url)[i]) && dropped(
                e,
                url,
            )[i].url != url,
        forall|i: int| 0 <= i < e.len() && (#[trigger] e[i]).url != url ==> dropped(e, url).contains(e[i]),
    decreases e.len(),
{
    if e.len() > 0 {
        let front = e.drop_last();
        lemma_dropped(front, url);
        let rest = dropped(front, url);
        let all = dropped(e, url);
        assert forall|i: int| 0 <= i < all.len() implies e.contains(#[trigger] all[i]) && all[i].url != url by {
            if i < rest.len() {
                assert(all[i] == rest[i]);
                let k = choose|k: int| 0 <= k < front.len() && front[k] == rest[i];
                assert(e[k] == all[i]);
            } else {
                assert(e[e.len() - 1] == all[i]);
            }
        }
        assert forall|i: int| 0 <= i < e.len() && (#[trigger] e[i]).url != url implies all.contains(e[i]) by {
            if i < front.len() {
                assert(front[i] == e[i]);
                let k = choose|k: int| 0 <= k < rest.len() && rest[k] == e[i];
                assert(all[k] == e[i]);
            } else {
                assert(all[all.len() - 1] == e[i]);
            }
        }
    }
}

/// Taking an address out takes out all of its entries and nothing else.
pub proof fn law_removal_takes_every_entry(e: Seq<EntryView>, url: Seq<char>, u: Seq<char>)
    ensures
        urls_of(dropped(e, url)).contains(u) <==> urls_of(e).contains(u) && u != url,
{
    lemma_dropped(e, url);
    let d = dropped(e, url);
    if urls_of(d).contains(u) {
        let i = choose|i: int| 0 <= i < d.len() && urls_of(d)[i] == u;
        assert(e.contains(d[i]));
        let k = choose|k: int| 0 <= k < e.len() && e[k] == d[i];
        assert(urls_of(e)[k] == u);
    }
    if urls_of(e).contains(u) && u != url {
        let k = choose|k: int| 0 <= k < e.len() && urls_of(e)[k] == u;
        assert(e[k].url != url);
        let i = choose|i: int| 0 <= i < d.len() && d[i] == e[k];
        assert(urls_of(d)[i] == u);
    }
}

proof fn lemma_provided(e: Seq<EntryView>, id: Seq<char>, url: Seq<char>)
    requires
        entries_wf(e),
    ensures
        entries_wf(provided(e, id, url)),
        forall|u: Seq<char>|
            #[trigger] urls_of(provided(e, id, url)).contains(u) <==> urls_of(e).contains(u) || u == url,
{
    let all = provided(e, id, url);
    if urls_of(e).contains(url) {
        assert(urls_of(all) =~= urls_of(e));
        assert forall|i: int| 0 <= i < all.len() implies has_reason(#[trigger] all[i]) by {
            assert(has_reason(e[i]));
        }
        assert forall|i: int, j: int|
            0 <= i < j < all.len() && (#[trigger] all[i]).url == (#[trigger] all[j]).url implies all[i]
            == all[j] by {
            assert(e[i].url == e[j].url);
        }
    } else {
        assert forall|i: int| 0 <= i < all.len() implies has_reason(#[trigger] all[i]) by {
            if i < e.len() {
                assert(has_reason(e[i]));
            }
        }
        assert forall|i: int, j: int|
            0 <= i < j < all.len() && (#[trigger] all[i]).url == (#[trigger] all[j]).url implies all[i]
            == all[j] by {
            assert(urls_of(e)[i] == e[i].url);
            if j < e.len() {
                assert(e[i] == e[j]);
            }
        }
        assert forall|u: Seq<char>| #[trigger] urls_of(all).contains(u) <==> urls_of(e).contains(u) || u
            == url by {
            if urls_of(e).contains(u) {
                let i = choose|i: int| 0 <= i < e.len() && urls_of(e)[i] == u;
                assert(urls_of(all)[i] == u);
            }
            assert(urls_of(all)[e.len() as int] == url);
            if urls_of(all).contains(u) {
                let i = choose|i: int| 0 <= i < all.len() && urls_of(all)[i] == u;
                if i < e.len() {
                    assert(urls_of(e)[i] == u);
                }
            }
        }
    }
}

proof fn lemma_all_provided(e: Seq<EntryView>, id: Seq<char>, list: Seq<Seq<char>>)
    requires
        entries_wf(e),
    ensures
        entries_wf(all_provided(e, id, list)),
        forall|u: Seq<char>|
            #[trigger] urls_of(all_provided(e, id, list)).contains(u) <==> urls_of(e).contains(u)
                || list.contains(u),
    decreases list.len(),
{
    if list.len() > 0 {
        let front = list.drop_last();
        lemma_all_provided(e, id, front);
        lemma_provided(all_provided(e, id, front), id, list.last());
        assert forall|u: Seq<char>| list.contains(u) <==> front.contains(u) || u == list.last() by {
            if list.contains(u) {
                let k = choose|k: int| 0 <= k < list.len() && list[k] == u;
                if k < front.len() {
                    assert(front[k] == u);
                }
            }
            if front.contains(u) {
                let k = choose|k: int| 0 <= k < front.len() && front[k] == u;
                assert(list[k] == u);
            }
            assert(list[list.len() - 1] == list.last());
        }
    }
}

/// After a refresh an address is in the list exactly if the subscription provides it
/// now, or if it was there for another reason: the user added it, or another
/// subscription provides it.
pub proof fn law_refresh_syncs_the_list(
    e: Seq<EntryView>,
    id: Seq<char>,
    list: Seq<Seq<char>>,
    url: Seq<char>,
)
    requires
        entries_wf(e),
    ensures
        urls_of(synced(e, id, list)).contains(url) <==> list.contains(url) || exists|i: int|
            0 <= i < e.len() && (#[trigger] e[i]).url == url && has_other_reason(e[i], id),
{
    lemma_withdrawn(e, id, list);
    lemma_all_provided(withdrawn(e, id, list), id, list);
    assert(urls_of(withdrawn(e, id, list)).contains(url) <==> stays(e, id, list, url));
    assert(urls_of(synced(e, id, list)).contains(url) <==> urls_of(withdrawn(e, id, list)).contains(url)
        || list.contains(url));
    if exists|i: int| 0 <= i < e.len() && (#[trigger] e[i]).url == url && has_other_reason(e[i], id) {
        assert(stays(e, id, list, url));
    }
}

/// A tracker that the user added stays, whatever subscriptions provide.
pub proof fn law_manual_trackers_stay(e: Seq<EntryView>, id: Seq<char>, list: Seq<Seq<char>>, i: int)
    requires
        entries_wf(e),
        0 <= i < e.len(),
        e[i].manual,
    ensures
        urls_of(synced(e, id, list)).contains(e[i].url),
{
    law_refresh_syncs_the_list(e, id, list, e[i].url);
    assert(has_other_reason(e[i], id));
}

/// When a subscription is switched off or removed, exactly those addresses go that it
/// alone provided.
pub proof fn law_withdrawal_takes_only_its_own(e: Seq<EntryView>, id: Seq<char>, url: Seq<char>)
    requires
        entries_wf(e),
    ensures
        urls_of(withdrawn(e, id, Seq::empty())).contains(url) <==> exists|i: int|
            0 <= i < e.len() && (#[trigger] e[i]).url == url && has_other_reason(e[i], id),
{
    lemma_withdrawn(e, id, Seq::empty());
    assert(urls_of(withdrawn(e, id, Seq::empty())).contains(url) <==> stays(e, id, Seq::empty(), url));
    if exists|i: int| 0 <= i < e.len() && (#[trigger] e[i]).url == url && has_other_reason(e[i], id) {
        assert(stays(e, id, Seq::empty(), url));
    }
}

/// Global trackers and subscriptions.
pub struct TrackerBook {
    pub entries: Vec<TrackerEntry>,
    pub subscriptions: Vec<TrackerSubscription>,
    /// Whether subscriptions are refreshed by themselves.
    pub auto_update: bool,
}

impl TrackerBook {
    pub open spec fn wf(&self) -> bool {
        entries_wf(entry_views(self.entries@))
    }

    /// Nothing is entered yet.
    pub open spec fn is_blank(&self) -> bool {
        self.entries@.len() == 0 && self.subscriptions@.len() == 0 && self.auto_update
    }

    pub fn new() -> (r: Self)
        ensures
            r.wf(),
            r.is_blank(),
    {
        TrackerBook { entries: Vec::new(), subscriptions: Vec::new(), auto_update: true }
    }

    /// The addresses of the global trackers.
    pub open spec fn urls(&self) -> Seq<Seq<char>> {
        urls_of(entry_views(self.entries@))
    }

    /// The addresses of the global trackers.
    pub fn url_list(&self) -> (r: Vec<String>)
        ensures
            string_texts(r@) == self.urls(),
    {
        let mut out: Vec<String> = Vec::new();
        let mut i: usize = 0;
        while i < self.entries.len()
            invariant
                i <= self.entries@.len(),
                out@.len() == i,
                forall|k: int| 0 <= k < i ==> (#[trigger] out@[k])@ == self.entries@[k].url@,
            decreases self.entries@.len() - i,
        {
            out.push(self.entries[i].url.clone());
            i = i + 1;
        }
        assert(string_texts(out@) =~= self.urls());
        out
    }

    /// Whether an address is listed.
    pub fn lists(&self, url: &str) -> (r: bool)
        ensures
            r == self.urls().contains(url@),
    {
        let ghost all = self.urls();
        let mut i: usize = 0;
        while i < self.entries.len()
            invariant
                i <= self.entries@.len(),
                all == self.urls(),
                forall|j: int| 0 <= j < i ==> #[trigger] all[j] != url@,
            decreases self.entries@.len() - i,
        {
            if same_str(self.entries[i].url.as_str(), url) {
                assert(all[i as int] == url@);
                return true;
            }
            assert(all[i as int] != url@);
            i = i + 1;
        }
        false
    }

    /// Enters a tracker that the user added.
    pub fn add_manual(&mut self, url: &str)
        requires
            old(self).wf(),
            !old(self).urls().contains(url@),
        ensures
            final(self).wf(),
            entry_views(final(self).entries@) == entry_views(old(self).entries@).push(
                EntryView { url: url@, manual: true, subs: Seq::empty() },
            ),
            *final(self) == (TrackerBook { entries: final(self).entries, ..*old(self) }),
    {
        let ghost before = entry_views(self.entries@);
        self.entries.push(TrackerEntry { url: url.to_owned(), manual: true, subs: Vec::new() });
        proof {
            let x = EntryView { url: url@, manual: true, subs: Seq::empty() };
            let all = entry_views(self.entries@);
            assert(self.entries@.last()@.subs =~= Seq::<Seq<char>>::empty());
            assert(all =~= before.push(x));
            assert forall|i: int, j: int|
                0 <= i < j < all.len() && (#[trigger] all[i]).url == (#[trigger] all[j]).url implies all[i]
                == all[j] by {
                assert(urls_of(before)[i] == before[i].url);
                if j < before.len() {
                    assert(before[i] == before[j]);
                }
            }
            assert forall|i: int| 0 <= i < all.len() implies has_reason(#[trigger] all[i]) by {
                if i < before.len() {
                    assert(has_reason(before[i]));
                }
            }
        }
    }

    /// Takes an address out, whatever its reasons. Tells whether it was there.
    pub fn remove_url(&mut self, url: &str) -> (found: bool)
        requires
            old(self).wf(),
        ensures
            final(self).wf(),
            found == old(self).urls().contains(url@),
            found ==> entry_views(final(self).entries@) == dropped(
                entry_views(old(self).entries@),
                url@,
            ),
            !found ==> *final(self) == *old(self),
            *final(self) == (TrackerBook { entries: final(self).entries, ..*old(self) }),
    {
        if !self.lists(url) {
            return false;
        }
        let ghost start = *self;
        let ghost all = entry_views(self.entries@);
        let mut rest: Vec<TrackerEntry> = Vec::new();
        std::mem::swap(&mut rest, &mut self.entries);
        let mut kept: Vec<TrackerEntry> = Vec::new();
        let ghost mut done: int = 0;
        proof {
            assert(entry_views(rest@) =~= all.skip(0));
            assert(entry_views(kept@) =~= dropped(all.take(0), url@));
        }
        while rest.len() > 0
            invariant
                0 <= done,
                done + rest@.len() == all.len(),
                entry_views(rest@) == all.skip(done),
                entry_views(kept@) == dropped(all.take(done), url@),
                *self == (TrackerBook { entries: self.entries, ..start }),
            decreases rest@.len(),
        {
            let ghost so_far = kept@;
            let ghost left = rest@;
            let x = rest.remove(0);
            proof {
                assert(entry_views(left)[0] == all[done]);
                assert(x@ == all[done]);
                assert(all.take(done + 1).drop_last() =~= all.take(done));
                assert(all.take(done + 1).last() == all[done]);
                assert forall|i: int| 0 <= i < rest@.len() implies entry_views(rest@)[i] == all.skip(
                    done + 1,
                )[i] by {
                    assert(rest@[i] == left[i + 1]);
                    assert(entry_views(left)[i + 1] == all.skip(done)[i + 1]);
                }
                assert(entry_views(rest@) =~= all.skip(done + 1));
            }
            if !same_str(x.url.as_str(), url) {
                kept.push(x);
                assert(entry_views(kept@) =~= entry_views(so_far).push(x@));
            }
            proof {
                done = done + 1;
            }
        }
        self.entries = kept;
        proof {
            assert(all.take(done) =~= all);
            lemma_dropped(all, url@);
            let d = dropped(all, url@);
            assert forall|i: int| 0 <= i < d.len() implies has_reason(#[trigger] d[i]) by {
                assert(all.contains(d[i]));
            }
            assert forall|i: int, j: int|
                0 <= i < j < d.len() && (#[trigger] d[i]).url == (#[trigger] d[j]).url implies d[i]
                == d[j] by {
                let a = choose|k: int| 0 <= k < all.len() && all[k] == d[i];
                let b = choose|k: int| 0 <= k < all.len() && all[k] == d[j];
                assert(all.contains(d[i]) && all.contains(d[j]));
                if a < b {
                    assert(all[a] == all[b]);
                } else if b < a {
                    assert(all[b] == all[a]);
                }
            }
        }
        true
    }

    /// A subscription stops to provide what is not in `list`.
    pub fn withdraw(&mut self, id: &str, list: &Vec<String>)
        requires
            old(self).wf(),
        ensures
            final(self).wf(),
            entry_views(final(self).entries@) == withdrawn(
                entry_views(old(self).entries@),
                id@,
                string_texts(list@),
            ),
            *final(self) == (TrackerBook { entries: final(self).entries, ..*old(self) }),
    {
        let ghost start = *self;
        let ghost all = entry_views(self.entries@);
        let mut rest: Vec<TrackerEntry> = Vec::new();
        std::mem::swap(&mut rest, &mut self.entries);
        let mut kept: Vec<TrackerEntry> = Vec::new();
        let ghost mut done: int = 0;
        proof {
            assert(entry_views(rest@) =~= all.skip(0));
            assert(entry_views(kept@) =~= withdrawn(all.take(0), id@, string_texts(list@)));
        }
        while rest.len() > 0
            invariant
                0 <= done,
                done + rest@.len() == all.len(),
                entry_views(rest@) == all.skip(done),
                entry_views(kept@) == withdrawn(all.take(done), id@, string_texts(list@)),
                *self == (TrackerBook { entries: self.entries, ..start }),
            decreases rest@.len(),
        {
            let ghost so_far = kept@;
            let ghost left = rest@;
            let mut x = rest.remove(0);
            proof {
                assert(entry_views(left)[0] == all[done]);
                assert(x@ == all[done]);
                assert(all.take(done + 1).drop_last() =~= all.take(done));
                assert(all.take(done + 1).last() == all[done]);
                assert forall|i: int| 0 <= i < rest@.len() implies entry_views(rest@)[i] == all.skip(
                    done + 1,
                )[i] by {
                    assert(rest@[i] == left[i + 1]);
                    assert(entry_views(left)[i + 1] == all.skip(done)[i + 1]);
                }
                assert(entry_views(rest@) =~= all.skip(done + 1));
            }
            if !holds(list, x.url.as_str()) {
                take_out(&mut x.subs, id);
                assert(x@ == unprovided(all[done], id@));
            }
            if x.manual || x.subs.len() > 0 {
                kept.push(x);
                assert(entry_views(kept@) =~= entry_views(so_far).push(x@));
            }
            proof {
                done = done + 1;
            }
        }
        self.entries = kept;
        proof {
            assert(all.take(done) =~= all);
            lemma_withdrawn(all, id@, string_texts(list@));
        }
    }

    /// A subscription provides an address.
    pub fn provide(&mut self, id: &str, url: &str)
        requires
            old(self).wf(),
        ensures
            final(self).wf(),
            entry_views(final(self).entries@) == provided(
                entry_views(old(self).entries@),
                id@,
                url@,
            ),
            *final(self) == (TrackerBook { entries: final(self).entries, ..*old(self) }),
    {
        let ghost before = entry_views(self.entries@);
        proof {
            lemma_provided(before, id@, url@);
        }
        if self.lists(url) {
            let ghost start = *self;
            let mut i: usize = 0;
            while i < self.entries.len()
                invariant
                    i <= self.entries@.len(),
                    self.entries@.len() == before.len(),
                    forall|k: int|
                        0 <= k < before.len() ==> (#[trigger] self.entries@[k])@ == if k < i {
                            enriched(before[k], id@, url@)
                        } else {
                            before[k]
                        },
                    *self == (TrackerBook { entries: self.entries, ..start }),
                decreases before.len() - i,
            {
                if same_str(self.entries[i].url.as_str(), url) {
                    put_text(&mut self.entries[i].subs, id);
                }
                i = i + 1;
            }
            assert(entry_views(self.entries@) =~= provided(before, id@, url@));
        } else {
            let mut subs: Vec<String> = Vec::new();
            subs.push(id.to_owned());
            assert(string_texts(subs@) =~= seq![id@]);
            self.entries.push(TrackerEntry { url: url.to_owned(), manual: false, subs });
            assert(entry_views(self.entries@) =~= provided(before, id@, url@));
        }
    }

    /// A subscription provides exactly `list`.
    pub fn sync(&mut self, id: &str, list: &Vec<String>)
        requires
            old(self).wf(),
        ensures
            final(self).wf(),
            entry_views(final(self).entries@) == synced(
                entry_views(old(self).entries@),
                id@,
                string_texts(list@),
            ),
            *final(self) == (TrackerBook { entries: final(self).entries, ..*old(self) }),
    {
        let ghost start = *self;
        let ghost all = string_texts(list@);
        self.withdraw(id, list);
        let ghost mid = entry_views(self.entries@);
        let mut i: usize = 0;
        assert(all.take(0) =~= Seq::<Seq<char>>::empty());
        while i < list.len()
            invariant
                i <= list@.len(),
                all == string_texts(list@),
                self.wf(),
                entry_views(self.entries@) == all_provided(mid, id@, all.take(i as int)),
                *self == (TrackerBook { entries: self.entries, ..start }),
            decreases list@.len() - i,
        {
            proof {
                assert(all.take(i + 1).drop_last() =~= all.take(i as int));
                assert(all.take(i + 1).last() == list@[i as int]@);
            }
            self.provide(id, list[i].as_str());
            i = i + 1;
        }
        assert(all.take(i as int) =~= all);
    }

    /// Place of a subscription; their number if there is none.
    pub open spec fn sub_at(subs: Seq<TrackerSubscription>, id: Seq<char>) -> int
        decreases subs.len(),
    {
        if subs.len() == 0 || subs[0].id@ == id {
            0
        } else {
            1 + Self::sub_at(subs.skip(1), id)
        }
    }

    /// Place of a subscription.
    pub fn find_sub(&self, id: &str) -> (r: Option<usize>)
        ensures
            match r {
                Some(k) => k < self.subscriptions@.len() && k == Self::sub_at(
                    self.subscriptions@,
                    id@,
                ) && self.subscriptions@[k as int].id@ == id@,
                None => Self::sub_at(self.subscriptions@, id@) == self.subscriptions@.len(),
            },
    {
        let ghost all = self.subscriptions@;
        let mut i: usize = 0;
        assert(all.skip(0) =~= all);
        while i < self.subscriptions.len()
            invariant
                i <= self.subscriptions@.len(),
                all == self.subscriptions@,
                Self::sub_at(all, id@) == i + Self::sub_at(all.skip(i as int), id@),
            decreases self.subscriptions@.len() - i,
        {
            assert(all.skip(i as int)[0] == all[i as int]);
            if same_str(self.subscriptions[i].id.as_str(), id) {
                return Some(i);
            }
            assert(all.skip(i as int).skip(1) =~= all.skip(i + 1));
            i = i + 1;
        }
        None
    }
}

} // verus!

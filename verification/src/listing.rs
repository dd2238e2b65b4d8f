//! Listing the sessions of a machine: those on disk, marked where an agent holds
//! them, and those that exist only because one does; the latest first.
use crate::proto::{SessionEntry, Stamp};
use crate::text::{cat3, same};
use vstd::prelude::*;
use vstd::string::*;

verus! {

/// A session as it is known, with the bits of the 64-bit float that says when it
/// was last changed.
#[derive(Debug)]
pub struct KnownSession {
    pub id: String,
    pub title: String,
    pub work_dir: String,
    pub updated_at: u64,
}

/// A session that an agent holds, with the bits of the 64-bit float that says
/// since when.
#[derive(Debug)]
pub struct LiveSession {
    pub session: String,
    pub work_dir: String,
    pub started_at: u64,
}

/// A listed session by its characters.
pub struct ListedV {
    pub id: Seq<char>,
    pub title: Seq<char>,
    pub work_dir: Seq<char>,
    pub updated_at: u64,
    pub live: bool,
}

/// A number that orders as the float with these bits does. The two zeros are
/// equal; what is not a number counts as beyond the infinities.
pub open spec fn order_key(bits: u64) -> int {
    if bits < 0x8000_0000_0000_0000 {
        bits as int
    } else {
        0x8000_0000_0000_0000 - bits
    }
}

/// A number that orders as the float with these bits does.
pub fn key_of(bits: u64) -> (res: i64)
    ensures
        res == order_key(bits),
{
    if bits < 0x8000_0000_0000_0000 {
        bits as i64
    } else {
        -((bits - 0x8000_0000_0000_0000) as i64)
    }
}

/// Whether an agent holds a session.
pub open spec fn is_held(id: Seq<char>, live: Seq<LiveSession>) -> bool {
    exists|i: int| 0 <= i < live.len() && (#[trigger] live[i]).session@ == id
}

/// Whether a session is known from disk.
pub open spec fn is_known(id: Seq<char>, known: Seq<KnownSession>) -> bool {
    exists|i: int| 0 <= i < known.len() && (#[trigger] known[i]).id@ == id
}

/// A known session as it is listed.
pub open spec fn known_entry(k: KnownSession, live: Seq<LiveSession>) -> ListedV {
    ListedV {
        id: k.id@,
        title: k.title@,
        work_dir: k.work_dir@,
        updated_at: k.updated_at,
        live: is_held(k.id@, live),
    }
}

/// A session that only an agent knows of, as it is listed.
pub open spec fn fresh_entry(l: LiveSession) -> ListedV {
    ListedV {
        id: l.session@,
        title: "Untitled ("@ + l.session@ + ")"@,
        work_dir: l.work_dir@,
        updated_at: l.started_at,
        live: true,
    }
}

/// The sessions among the first `n` live ones that only an agent knows of.
pub open spec fn fresh_entries(
    live: Seq<LiveSession>,
    known: Seq<KnownSession>,
    n: int,
) -> Seq<ListedV>
    decreases n,
{
    if n <= 0 {
        seq![]
    } else if is_known(live[n - 1].session@, known) {
        fresh_entries(live, known, n - 1)
    } else {
        fresh_entries(live, known, n - 1).push(fresh_entry(live[n - 1]))
    }
}

/// All sessions before they are put in order.
pub open spec fn all_entries(known: Seq<KnownSession>, live: Seq<LiveSession>) -> Seq<ListedV> {
    Seq::new(known.len(), |i: int| known_entry(known[i], live)) + fresh_entries(
        live,
        known,
        live.len() as int,
    )
}

/// The place of an entry among entries in order: behind all that are as late as
/// it is or later.
pub open spec fn place_of(sorted: Seq<ListedV>, key: int, i: int) -> int
    decreases sorted.len() - i,
{
    if 0 <= i < sorted.len() && order_key(sorted[i].updated_at) >= key {
        place_of(sorted, key, i + 1)
    } else {
        i
    }
}

/// `entries` in order, the latest first. Those of the same time keep their
/// order.
pub open spec fn in_order(entries: Seq<ListedV>) -> Seq<ListedV>
    decreases entries.len(),
{
    if entries.len() == 0 {
        seq![]
    } else {
        let sorted = in_order(entries.drop_last());
        let e = entries.last();
        sorted.insert(place_of(sorted, order_key(e.updated_at), 0), e)
    }
}

/// Listed sessions by their characters.
pub open spec fn listed_views(entries: Seq<Listed>) -> Seq<ListedV> {
    Seq::new(entries.len(), |i: int| listed_view(entries[i]))
}

/// A listed session by its characters.
pub open spec fn listed_view(e: Listed) -> ListedV {
    ListedV {
        id: e.id@,
        title: e.title@,
        work_dir: e.work_dir@,
        updated_at: e.updated_at,
        live: e.live,
    }
}

/// A listed session.
#[derive(Debug)]
pub struct Listed {
    pub id: String,
    pub title: String,
    pub work_dir: String,
    pub updated_at: u64,
    pub live: bool,
}

fn held(id: &str, live: &[LiveSession]) -> (res: bool)
    ensures
        res == is_held(id@, live@),
{
    let mut i: usize = 0;
    while i < live.len()
        invariant
            i <= live@.len(),
            forall|k: int| 0 <= k < i ==> (#[trigger] live@[k]).session@ != id@,
        decreases live@.len() - i,
    {
        if same(&live[i].session, id) {
            return true;
        }
        i += 1;
    }
    false
}

fn known_id(id: &str, known: &[KnownSession]) -> (res: bool)
    ensures
        res == is_known(id@, known@),
{
    let mut i: usize = 0;
    while i < known.len()
        invariant
            i <= known@.len(),
            forall|k: int| 0 <= k < i ==> (#[trigger] known@[k]).id@ != id@,
        decreases known@.len() - i,
    {
        if same(&known[i].id, id) {
            return true;
        }
        i += 1;
    }
    false
}

proof fn lemma_place_of(sorted: Seq<ListedV>, key: int, i: int)
    requires
        0 <= i <= sorted.len(),
    ensures
        i <= place_of(sorted, key, i) <= sorted.len(),
        forall|k: int|
            i <= k < place_of(sorted, key, i) ==> order_key((#[trigger] sorted[k]).updated_at)
                >= key,
        place_of(sorted, key, i) < sorted.len() ==> order_key(
            sorted[place_of(sorted, key, i)].updated_at,
        ) < key,
    decreases sorted.len() - i,
{
    if i < sorted.len() && order_key(sorted[i].updated_at) >= key {
        lemma_place_of(sorted, key, i + 1);
    }
}

/// Puts an entry in its place.
fn insert_entry(sorted: &mut Vec<Listed>, entry: Listed)
    ensures
        listed_views(final(sorted)@) == listed_views(old(sorted)@).insert(
            place_of(listed_views(old(sorted)@), order_key(entry.updated_at), 0),
            listed_view(entry),
        ),
{
    let ghost was = listed_views(sorted@);
    let key: i64 = key_of(entry.updated_at);
    let mut p: usize = 0;
    while p < sorted.len() && key_of(sorted[p].updated_at) >= key
        invariant
            p <= sorted@.len(),
            sorted@ == old(sorted)@,
            was == listed_views(sorted@),
            key == order_key(entry.updated_at),
            place_of(was, key as int, 0) == place_of(was, key as int, p as int),
        decreases sorted@.len() - p,
    {
        proof {
            assert(was[p as int] == listed_view(sorted@[p as int]));
        }
        p += 1;
    }
    proof {
        if p < sorted@.len() {
            assert(was[p as int] == listed_view(sorted@[p as int]));
        }
    }
    sorted.insert(p, entry);
    proof {
        assert(listed_views(sorted@) =~= was.insert(p as int, listed_view(entry)));
    }
}

/// Lists the sessions of a machine.
pub fn list_sessions(known: &[KnownSession], live: &[LiveSession]) -> (res: Vec<Listed>)
    ensures
        listed_views(res@) == in_order(all_entries(known@, live@)),
{
    let ghost all = all_entries(known@, live@);
    let mut sorted: Vec<Listed> = Vec::new();
    let mut i: usize = 0;
    proof {
        assert(all.take(0) =~= seq![]);
        assert(listed_views(sorted@) =~= seq![]);
    }
    while i < known.len()
        invariant
            i <= known@.len(),
            all == all_entries(known@, live@),
            listed_views(sorted@) == in_order(all.take(i as int)),
        decreases known@.len() - i,
    {
        let entry: Listed = Listed {
            id: known[i].id.clone(),
            title: known[i].title.clone(),
            work_dir: known[i].work_dir.clone(),
            updated_at: known[i].updated_at,
            live: held(&known[i].id, live),
        };
        proof {
            assert(all.take(i + 1).drop_last() =~= all.take(i as int));
            assert(all.take(i + 1).last() == listed_view(entry));
        }
        insert_entry(&mut sorted, entry);
        i += 1;
    }
    let ghost head = Seq::new(known@.len(), |i: int| known_entry(known@[i], live@));
    let ghost fresh = fresh_entries(live@, known@, live@.len() as int);
    let mut j: usize = 0;
    proof {
        assert(all =~= head + fresh);
        assert(all.take(i as int) =~= head + fresh_entries(live@, known@, 0));
    }
    while j < live.len()
        invariant
            j <= live@.len(),
            listed_views(sorted@) == in_order(head + fresh_entries(live@, known@, j as int)),
        decreases live@.len() - j,
    {
        if !known_id(&live[j].session, known) {
            let entry: Listed = Listed {
                id: live[j].session.clone(),
                title: cat3("Untitled (", &live[j].session, ")"),
                work_dir: live[j].work_dir.clone(),
                updated_at: live[j].started_at,
                live: true,
            };
            proof {
                let now = head + fresh_entries(live@, known@, j + 1);
                assert(now.drop_last() =~= head + fresh_entries(live@, known@, j as int));
                assert(now.last() == listed_view(entry));
            }
            insert_entry(&mut sorted, entry);
        }
        j += 1;
    }
    proof {
        assert(head + fresh_entries(live@, known@, j as int) =~= all);
    }
    sorted
}

/// The listing as a daemon answers it.
pub fn as_entries(listed: Vec<Listed>) -> (res: Vec<SessionEntry>)
    ensures
        res@.len() == listed@.len(),
        forall|i: int|
            0 <= i < listed@.len() ==> {
                let e = #[trigger] res@[i];
                e.id@ == listed@[i].id@ && e.title@ == listed@[i].title@ && e.work_dir@
                    == listed@[i].work_dir@ && e.updated_at == Stamp::Real(listed@[i].updated_at)
                    && e.live == listed@[i].live
            },
{
    let mut res: Vec<SessionEntry> = Vec::new();
    let mut i: usize = 0;
    while i < listed.len()
        invariant
            i <= listed@.len(),
            res@.len() == i,
            forall|k: int|
                0 <= k < i ==> {
                    let e = #[trigger] res@[k];
                    e.id@ == listed@[k].id@ && e.title@ == listed@[k].title@ && e.work_dir@
                        == listed@[k].work_dir@ && e.updated_at == Stamp::Real(
                        listed@[k].updated_at,
                    ) && e.live == listed@[k].live
                },
        decreases listed@.len() - i,
    {
        res.push(
            SessionEntry {
                id: listed[i].id.clone(),
                title: listed[i].title.clone(),
                work_dir: listed[i].work_dir.clone(),
                updated_at: Stamp::Real(listed[i].updated_at),
                live: listed[i].live,
            },
        );
        i += 1;
    }
    res
}

/// A listing is in order, the latest first, and holds each entry as often as it
/// was found.
pub proof fn law_a_listing_is_in_order(entries: Seq<ListedV>)
    ensures
        forall|i: int, j: int|
            0 <= i < j < in_order(entries).len() ==> order_key(
                (#[trigger] in_order(entries)[i]).updated_at,
            ) >= order_key((#[trigger] in_order(entries)[j]).updated_at),
        in_order(entries).to_multiset() == entries.to_multiset(),
    decreases entries.len(),
{
    if entries.len() > 0 {
        let front = entries.drop_last();
        law_a_listing_is_in_order(front);
        let sorted = in_order(front);
        let e = entries.last();
        let key = order_key(e.updated_at);
        lemma_place_of(sorted, key, 0);
        let p = place_of(sorted, key, 0);
        let now = sorted.insert(p, e);
        assert forall|i: int, j: int| 0 <= i < j < now.len() implies order_key(
            (#[trigger] now[i]).updated_at,
        ) >= order_key((#[trigger] now[j]).updated_at) by {
            if j < p {
                assert(now[i] == sorted[i] && now[j] == sorted[j]);
            } else if j == p {
                assert(now[i] == sorted[i]);
            } else if i == p {
                assert(now[j] == sorted[j - 1]);
                if j - 1 > p {
                    assert(order_key(sorted[p].updated_at) >= order_key(sorted[j - 1].updated_at));
                }
            } else if i < p {
                assert(now[i] == sorted[i] && now[j] == sorted[j - 1]);
            } else {
                assert(now[i] == sorted[i - 1] && now[j] == sorted[j - 1]);
            }
        }
        now.to_multiset_ensures();
        sorted.to_multiset_ensures();
        assert(now.remove(p) =~= sorted);
        assert(now.contains(e)) by {
            assert(now[p] == e);
        }
        assert(now.to_multiset() =~= sorted.to_multiset().insert(e));
        front.to_multiset_ensures();
        assert(entries =~= front.push(e));
        assert(entries.to_multiset() =~= front.to_multiset().insert(e));
    } else {
        assert(in_order(entries) =~= entries);
    }
}

/// A session that an agent holds is always listed, and listed as live.
pub proof fn law_every_live_session_is_listed(
    known: Seq<KnownSession>,
    live: Seq<LiveSession>,
    i: int,
)
    requires
        0 <= i < live.len(),
    ensures
        exists|k: int|
            0 <= k < all_entries(known, live).len() && (#[trigger] all_entries(known, live)[k]).id
                == live[i].session@ && all_entries(known, live)[k].live,
{
    let all = all_entries(known, live);
    let id = live[i].session@;
    if is_known(id, known) {
        let k = choose|k: int| 0 <= k < known.len() && (#[trigger] known[k]).id@ == id;
        assert(all[k] == known_entry(known[k], live));
        assert(is_held(id, live));
    } else {
        lemma_fresh_has(live, known, live.len() as int, i);
        let fresh = fresh_entries(live, known, live.len() as int);
        let k = choose|k: int|
            0 <= k < fresh.len() && (#[trigger] fresh[k]) == fresh_entry(live[i]);
        assert(all[known.len() + k] == fresh[k]);
    }
}

proof fn lemma_fresh_has(live: Seq<LiveSession>, known: Seq<KnownSession>, n: int, i: int)
    requires
        0 <= i < n <= live.len(),
        !is_known(live[i].session@, known),
    ensures
        exists|k: int|
            0 <= k < fresh_entries(live, known, n).len() && (#[trigger] fresh_entries(
                live,
                known,
                n,
            )[k]) == fresh_entry(live[i]),
    decreases n,
{
    let now = fresh_entries(live, known, n);
    if i == n - 1 {
        assert(now[now.len() - 1] == fresh_entry(live[i]));
    } else {
        lemma_fresh_has(live, known, n - 1, i);
        let earlier = fresh_entries(live, known, n - 1);
        let k = choose|k: int|
            0 <= k < earlier.len() && (#[trigger] earlier[k]) == fresh_entry(live[i]);
        assert(now[k] == earlier[k]);
    }
}

/// A listing holds every session once for each place where it is known, and each that only
/// an agent holds, the latest first; one is live exactly where an agent holds it.
pub proof fn law_what_a_listing_holds(
    known: &[KnownSession],
    live: &[LiveSession],
    res: Vec<Listed>,
    i: int,
    a: int,
    b: int,
)
    requires
        call_ensures(list_sessions, (known, live), res),
    ensures
        0 <= i < known@.len() ==> exists|k: int|
            0 <= k < res@.len() && (#[trigger] res@[k]).id@ == known@[i].id@ && res@[k].title@
                == known@[i].title@ && res@[k].work_dir@ == known@[i].work_dir@
                && res@[k].updated_at == known@[i].updated_at && (res@[k].live <==> exists|j: int|
                0 <= j < live@.len() && (#[trigger] live@[j]).session@ == known@[i].id@),
        0 <= i < live@.len() ==> exists|k: int|
            0 <= k < res@.len() && (#[trigger] res@[k]).id@ == live@[i].session@ && res@[k].live,
        0 <= a < b < res@.len() && res@[a].updated_at < 0x8000_0000_0000_0000 && res@[b].updated_at
            < 0x8000_0000_0000_0000 ==> res@[a].updated_at >= res@[b].updated_at,
{
    let all = all_entries(known@, live@);
    law_a_listing_is_in_order(all);
    let listed = listed_views(res@);
    assert(listed.len() == res@.len());
    if 0 <= a < b < res@.len() {
        assert(listed[a] == listed_view(res@[a]));
        assert(listed[b] == listed_view(res@[b]));
        assert(order_key(in_order(all)[a].updated_at) >= order_key(in_order(all)[b].updated_at));
    }
    if 0 <= i < known@.len() {
        let entry = known_entry(known@[i], live@);
        assert(all[i] == entry);
        lemma_listed_somewhere(listed, all, i);
        let k = choose|k: int| 0 <= k < listed.len() && listed[k] == entry;
        assert(listed[k] == listed_view(res@[k]));
        assert(res@[k].id@ == known@[i].id@);
    }
    if 0 <= i < live@.len() {
        law_every_live_session_is_listed(known@, live@, i);
        let m = choose|m: int|
            0 <= m < all.len() && (#[trigger] all[m]).id == live@[i].session@ && all[m].live;
        lemma_listed_somewhere(listed, all, m);
        let k = choose|k: int| 0 <= k < listed.len() && listed[k] == all[m];
        assert(listed[k] == listed_view(res@[k]));
        assert(res@[k].id@ == live@[i].session@);
    }
}

proof fn lemma_listed_somewhere(listed: Seq<ListedV>, all: Seq<ListedV>, i: int)
    requires
        listed.to_multiset() == all.to_multiset(),
        0 <= i < all.len(),
    ensures
        exists|k: int| 0 <= k < listed.len() && listed[k] == all[i],
{
    broadcast use vstd::seq_lib::group_to_multiset_ensures;

    assert(all.contains(all[i]));
    assert(all.to_multiset().count(all[i]) > 0);
    assert(listed.contains(all[i]));
}

/// The order of the numbers is that of the times that they stand for: of two that are not
/// negative the larger bits are later, of two that are negative the smaller ones, and a
/// negative one is never later than one that is not.
pub proof fn law_how_times_are_ordered(a: u64, b: u64, x: i64, y: i64)
    requires
        call_ensures(key_of, (a,), x),
        call_ensures(key_of, (b,), y),
    ensures
        a < 0x8000_0000_0000_0000 && b < 0x8000_0000_0000_0000 ==> (x < y <==> a < b),
        a >= 0x8000_0000_0000_0000 && b >= 0x8000_0000_0000_0000 ==> (x < y <==> a > b),
        a >= 0x8000_0000_0000_0000 && b < 0x8000_0000_0000_0000 ==> x <= y,
{
}

} // verus!

use vstd::prelude::*;

use crate::text::{
    decimal, decimal_string, lemma_seq_lt_irreflexive, lemma_seq_lt_total, lemma_seq_lt_transitive,
    pad_left,
    pad_left_string, seq_lt, str_less,
};
use crate::urls::{joined_url, opt_view, url_join};
use crate::text::views;

verus! {

/// A room on offer: its monthly cost, its address and, where it has one, the link to its
/// advertisement relative to the site's URL.
#[derive(Debug, PartialEq, Eq, PartialOrd, Ord, Hash)]
pub struct Room {
    pub cost: u16,
    pub address: String,
    pub href: Option<String>,
}

impl Clone for Room {
    fn clone(&self) -> (r: Room)
        ensures
            r == *self,
    {
        Room {
            cost: self.cost,
            address: self.address.clone(),
            href: match &self.href {
                Some(h) => Some(h.clone()),
                None => None,
            },
        }
    }
}

impl core::ops::Deref for Room {
    type Target = String;

    fn deref(&self) -> (r: &String)
        ensures
            *r == self.address,
    {
        &self.address
    }
}

/// The order of optional strings: no string before any string, strings by `seq_lt`.
pub open spec fn opt_lt(a: Option<Seq<char>>, b: Option<Seq<char>>) -> bool {
    match (a, b) {
        (None, Some(_)) => true,
        (Some(x), Some(y)) => seq_lt(x, y),
        _ => false,
    }
}

/// The order of rooms: by cost, then by address, then by link, as the fields are declared.
pub open spec fn room_lt(a: Room, b: Room) -> bool {
    ||| a.cost < b.cost
    ||| a.cost == b.cost && seq_lt(a.address@, b.address@)
    ||| a.cost == b.cost && a.address@ == b.address@ && opt_lt(opt_view(a.href), opt_view(b.href))
}

/// No room comes before itself.
pub proof fn lemma_room_lt_irreflexive(a: Room)
    ensures
        !room_lt(a, a),
{
    lemma_seq_lt_irreflexive(a.address@);
    match a.href {
        Some(h) => lemma_seq_lt_irreflexive(h@),
        None => {},
    }
}

/// The order of rooms is transitive.
pub proof fn lemma_room_lt_transitive(a: Room, b: Room, c: Room)
    requires
        room_lt(a, b),
        room_lt(b, c),
    ensures
        room_lt(a, c),
{
    if a.cost == b.cost && b.cost == c.cost {
        if seq_lt(a.address@, b.address@) && seq_lt(b.address@, c.address@) {
            lemma_seq_lt_transitive(a.address@, b.address@, c.address@);
        } else if a.address@ == b.address@ && b.address@ == c.address@ {
            match (a.href, b.href, c.href) {
                (Some(x), Some(y), Some(z)) => lemma_seq_lt_transitive(x@, y@, z@),
                _ => {},
            }
        }
    }
}

/// Of two rooms that differ in cost, address or link, one comes before the other.
pub proof fn lemma_room_lt_total(a: Room, b: Room)
    requires
        a.cost != b.cost || a.address@ != b.address@ || opt_view(a.href) != opt_view(b.href),
    ensures
        room_lt(a, b) || room_lt(b, a),
{
    if a.cost == b.cost {
        if a.address@ != b.address@ {
            lemma_seq_lt_total(a.address@, b.address@);
        } else {
            match (a.href, b.href) {
                (Some(x), Some(y)) => lemma_seq_lt_total(x@, y@),
                _ => {},
            }
        }
    }
}

/// A cheaper room comes before a dearer one, whatever their addresses and links; of two
/// rooms of one cost, the one whose address comes first in the order of strings does.
pub proof fn lemma_cheaper_first(a: Room, b: Room)
    ensures
        a.cost < b.cost ==> room_lt(a, b),
        room_lt(a, b) ==> a.cost <= b.cost,
        a.cost == b.cost && seq_lt(a.address@, b.address@) ==> room_lt(a, b),
        a.cost == b.cost && seq_lt(a.address@, b.address@) ==> !room_lt(b, a),
{
    if a.cost == b.cost && seq_lt(a.address@, b.address@) {
        lemma_seq_lt_irreflexive(a.address@);
        if seq_lt(b.address@, a.address@) {
            lemma_seq_lt_transitive(a.address@, b.address@, a.address@);
        }
    }
}

/// `a` does not come after `b`.
pub open spec fn room_le(a: Room, b: Room) -> bool {
    !room_lt(b, a)
}

/// The room has an address, so it is worth listing.
pub open spec fn listed(r: Room) -> bool {
    r.address@.len() > 0
}

/// Every room of `s` comes no later than the rooms after it.
pub open spec fn rooms_sorted(s: Seq<Room>) -> bool {
    forall|i: int, j: int| 0 <= i < j < s.len() ==> room_le(#[trigger] s[i], #[trigger] s[j])
}

/// `picked` are the rooms of `rooms` at the distinct indices `idx`, all listed.
pub open spec fn picked_at(rooms: Seq<Room>, picked: Seq<Room>, idx: Seq<int>) -> bool {
    &&& idx.len() == picked.len()
    &&& forall|j: int|
        0 <= j < idx.len() ==> 0 <= #[trigger] idx[j] < rooms.len() && rooms[idx[j]] == picked[j]
            && listed(picked[j])
    &&& forall|j: int, k: int| 0 <= j < k < idx.len() ==> #[trigger] idx[j] != #[trigger] idx[k]
}

/// `picked` is the beginning, at most `limit` long, of the listed rooms of `rooms` in order:
/// sorted, taken from `rooms` at distinct indices, no room left out that comes before one
/// taken, and all listed rooms taken where fewer than `limit` were.
pub open spec fn cheapest_listed_spec(rooms: Seq<Room>, picked: Seq<Room>, limit: nat) -> bool {
    &&& picked.len() <= limit
    &&& rooms_sorted(picked)
    &&& exists|idx: Seq<int>|
        {
            &&& #[trigger] picked_at(rooms, picked, idx)
            &&& forall|i: int|
                0 <= i < rooms.len() && listed(rooms[i]) && !idx.contains(i) ==> forall|j: int|
                    0 <= j < picked.len() ==> room_le(#[trigger] picked[j], rooms[i])
            &&& picked.len() < limit ==> forall|i: int|
                0 <= i < rooms.len() && listed(#[trigger] rooms[i]) ==> idx.contains(i)
        }
}

/// What the rooms shown are: each has an address and is one of `rooms`; they come by cost,
/// cheapest first; and a room with an address is left out only where `limit` rooms are shown,
/// none of them dearer than it. Whether a room may be shown depends on its address alone.
pub proof fn lemma_shown_rooms(rooms: Seq<Room>, picked: Seq<Room>, limit: nat)
    requires
        cheapest_listed_spec(rooms, picked, limit),
    ensures
        forall|j: int|
            0 <= j < picked.len() ==> (#[trigger] picked[j]).address@.len() > 0 && rooms.contains(
                picked[j],
            ),
        forall|j: int, k: int|
            0 <= j < k < picked.len() ==> (#[trigger] picked[j]).cost <= (#[trigger] picked[k]).cost,
        forall|i: int|
            0 <= i < rooms.len() && (#[trigger] rooms[i]).address@.len() > 0 && !picked.contains(
                rooms[i],
            ) ==> picked.len() == limit && forall|j: int|
                0 <= j < picked.len() ==> (#[trigger] picked[j]).cost <= rooms[i].cost,
{
    let idx = choose|idx: Seq<int>|
        {
            &&& #[trigger] picked_at(rooms, picked, idx)
            &&& forall|i: int|
                0 <= i < rooms.len() && listed(rooms[i]) && !idx.contains(i) ==> forall|j: int|
                    0 <= j < picked.len() ==> room_le(#[trigger] picked[j], rooms[i])
            &&& picked.len() < limit ==> forall|i: int|
                0 <= i < rooms.len() && listed(#[trigger] rooms[i]) ==> idx.contains(i)
        };
    assert forall|j: int| 0 <= j < picked.len() implies (#[trigger] picked[j]).address@.len() > 0
        && rooms.contains(picked[j]) by {
        assert(rooms[idx[j]] == picked[j]);
    }
    assert forall|j: int, k: int| 0 <= j < k < picked.len() implies (#[trigger] picked[j]).cost
        <= (#[trigger] picked[k]).cost by {
        assert(room_le(picked[j], picked[k]));
        lemma_cheaper_first(picked[k], picked[j]);
    }
    assert forall|i: int|
        0 <= i < rooms.len() && (#[trigger] rooms[i]).address@.len() > 0 && !picked.contains(
            rooms[i],
        ) implies picked.len() == limit && forall|j: int|
        0 <= j < picked.len() ==> (#[trigger] picked[j]).cost <= rooms[i].cost by {
        assert(listed(rooms[i]));
        if idx.contains(i) {
            let j = choose|j: int| 0 <= j < idx.len() && idx[j] == i;
            assert(picked[j] == rooms[i]);
            assert(picked.contains(rooms[i]));
        }
        assert forall|j: int| 0 <= j < picked.len() implies (#[trigger] picked[j]).cost
            <= rooms[i].cost by {
            assert(room_le(picked[j], rooms[i]));
            lemma_cheaper_first(rooms[i], picked[j]);
        }
    }
}

fn opt_str_less(a: &Option<String>, b: &Option<String>) -> (r: bool)
    ensures
        r == opt_lt(opt_view(*a), opt_view(*b)),
{
    match (a, b) {
        (None, Some(_)) => true,
        (Some(x), Some(y)) => str_less(x.as_str(), y.as_str()),
        _ => false,
    }
}

/// Whether `a` comes before `b` in the order of rooms.
pub fn room_less(a: &Room, b: &Room) -> (r: bool)
    ensures
        r == room_lt(*a, *b),
{
    if a.cost != b.cost {
        a.cost < b.cost
    } else if a.address != b.address {
        str_less(a.address.as_str(), b.address.as_str())
    } else {
        opt_str_less(&a.href, &b.href)
    }
}

fn has_index(chosen: &Vec<usize>, i: usize) -> (r: bool)
    ensures
        r == chosen@.map_values(|x: usize| x as int).contains(i as int),
{
    let ghost c = chosen@.map_values(|x: usize| x as int);
    let mut k: usize = 0;
    while k < chosen.len()
        invariant
            c == chosen@.map_values(|x: usize| x as int),
            k <= chosen@.len(),
            forall|j: int| 0 <= j < k ==> c[j] != i as int,
        decreases chosen@.len() - k,
    {
        if chosen[k] == i {
            assert(c[k as int] == i as int);
            return true;
        }
        k = k + 1;
    }
    false
}

/// The rooms with an address, in order, at most `limit` of them.
pub fn cheapest_listed(rooms: &Vec<Room>, limit: usize) -> (r: Vec<Room>)
    ensures
        cheapest_listed_spec(rooms@, r@, limit as nat),
{
    let n = rooms.len();
    let mut picked: Vec<Room> = Vec::new();
    let mut chosen: Vec<usize> = Vec::new();
    loop
        invariant
            n == rooms@.len(),
            picked@.len() == chosen@.len(),
            picked@.len() <= limit,
            picked_at(rooms@, picked@, chosen@.map_values(|x: usize| x as int)),
            rooms_sorted(picked@),
            forall|i: int|
                0 <= i < n && listed(rooms@[i]) && !chosen@.map_values(|x: usize| x as int).contains(i)
                    ==> forall|j: int|
                    0 <= j < picked@.len() ==> room_le(#[trigger] picked@[j], rooms@[i]),
        ensures
            picked@.len() <= limit,
            picked_at(rooms@, picked@, chosen@.map_values(|x: usize| x as int)),
            rooms_sorted(picked@),
            forall|i: int|
                0 <= i < n && listed(rooms@[i]) && !chosen@.map_values(|x: usize| x as int).contains(i)
                    ==> forall|j: int|
                    0 <= j < picked@.len() ==> room_le(#[trigger] picked@[j], rooms@[i]),
            picked@.len() < limit ==> forall|i: int|
                0 <= i < n && listed(#[trigger] rooms@[i]) ==> chosen@.map_values(
                    |x: usize| x as int,
                ).contains(i),
        decreases limit - picked@.len(),
    {
        if picked.len() >= limit {
            break;
        }
        let ghost c = chosen@.map_values(|x: usize| x as int);
        let mut best: Option<usize> = None;
        let mut i: usize = 0;
        while i < n
            invariant
                n == rooms@.len(),
                i <= n,
                c == chosen@.map_values(|x: usize| x as int),
                match best {
                    Some(b) => b < i && listed(rooms@[b as int]) && !c.contains(b as int)
                        && forall|k: int|
                        0 <= k < i && listed(#[trigger] rooms@[k]) && !c.contains(k) ==> !room_lt(
                            rooms@[k],
                            rooms@[b as int],
                        ),
                    None => forall|k: int|
                        0 <= k < i && listed(#[trigger] rooms@[k]) ==> c.contains(k),
                },
            decreases n - i,
        {
            if !rooms[i].address.as_str().is_empty() && !has_index(&chosen, i) {
                match best {
                    None => {
                        proof {
                            lemma_room_lt_irreflexive(rooms@[i as int]);
                        }
                        best = Some(i);
                    },
                    Some(b) => {
                        if room_less(&rooms[i], &rooms[b]) {
                            proof {
                                lemma_room_lt_irreflexive(rooms@[i as int]);
                                assert forall|k: int|
                                    0 <= k < i && listed(#[trigger] rooms@[k]) && !c.contains(k)
                                    implies !room_lt(rooms@[k], rooms@[i as int]) by {
                                    if room_lt(rooms@[k], rooms@[i as int]) {
                                        lemma_room_lt_transitive(
                                            rooms@[k],
                                            rooms@[i as int],
                                            rooms@[b as int],
                                        );
                                    }
                                }
                            }
                            best = Some(i);
                        }
                    },
                }
            }
            i = i + 1;
        }
        match best {
            None => {
                break;
            },
            Some(b) => {
                let ghost old_picked = picked@;
                let room = rooms[b].clone();
                picked.push(room);
                chosen.push(b);
                proof {
                    let c2 = chosen@.map_values(|x: usize| x as int);
                    assert(c2 =~= c.push(b as int));
                    assert forall|k: int| 0 <= k < i && k != b && listed(rooms@[k]) && !c2.contains(k)
                        implies room_le(rooms@[b as int], rooms@[k]) by {
                        assert(!c.contains(k)) by {
                            if c.contains(k) {
                                let w = choose|w: int| 0 <= w < c.len() && c[w] == k;
                                assert(c2[w] == k);
                            }
                        }
                    }
                    assert(c2.contains(b as int)) by {
                        assert(c2[c.len() as int] == b as int);
                    }
                    assert forall|i2: int|
                        0 <= i2 < n && listed(rooms@[i2]) && !c2.contains(i2) implies forall|j: int|
                        0 <= j < picked@.len() ==> room_le(#[trigger] picked@[j], rooms@[i2]) by {
                        assert(!c.contains(i2)) by {
                            if c.contains(i2) {
                                let w = choose|w: int| 0 <= w < c.len() && c[w] == i2;
                                assert(c2[w] == i2);
                            }
                        }
                        assert forall|j: int| 0 <= j < picked@.len() implies room_le(
                            #[trigger] picked@[j],
                            rooms@[i2],
                        ) by {
                            if j < old_picked.len() {
                                assert(picked@[j] == old_picked[j]);
                            }
                        }
                    }
                    assert forall|j: int, k: int| 0 <= j < k < picked@.len() implies room_le(
                        #[trigger] picked@[j],
                        #[trigger] picked@[k],
                    ) by {
                        if k < old_picked.len() {
                            assert(old_picked[j] == picked@[j]);
                            assert(old_picked[k] == picked@[k]);
                        } else {
                            assert(old_picked[j] == picked@[j]);
                        }
                    }
                    assert(picked_at(rooms@, picked@, c2)) by {
                        assert forall|j: int, k: int| 0 <= j < k < c2.len() implies #[trigger] c2[j]
                            != #[trigger] c2[k] by {
                            if k == c.len() {
                                assert(c.contains(c2[j]) ) by {
                                    assert(c[j] == c2[j]);
                                }
                            } else {
                                assert(c[j] == c2[j] && c[k] == c2[k]);
                            }
                        }
                        assert forall|j: int| 0 <= j < c2.len() implies 0 <= #[trigger] c2[j] < rooms@.len()
                            && rooms@[c2[j]] == picked@[j] && listed(picked@[j]) by {
                            if j < c.len() {
                                assert(c[j] == c2[j]);
                                assert(old_picked[j] == picked@[j]);
                            }
                        }
                    }
                }
            },
        }
    }
    proof {
        let idx = chosen@.map_values(|x: usize| x as int);
        assert(picked_at(rooms@, picked@, idx));
    }
    picked
}

impl Room {
    /// The room as a line of the listing: the cost right-aligned in four columns, a space,
    /// and the address.
    pub fn display(&self) -> (r: String)
        ensures
            r@ == pad_left(decimal(self.cost as nat), 4) + " "@ + self.address@,
    {
        let cost = decimal_string(self.cost as u32);
        let mut r = pad_left_string(cost.as_str(), 4);
        r.append(" ");
        r.append(self.address.as_str());
        r
    }

    /// The absolute URL of the room's advertisement, its link resolved against `base`;
    /// `None` where the room has no link or the link does not resolve.
    pub fn url(&self, base: &str) -> (r: Option<String>)
        ensures
            opt_view(r) == match self.href {
                Some(h) => joined_url(base@, h@),
                None => None,
            },
    {
        match &self.href {
            Some(h) => match url_join(base, h.as_str()) {
                Ok(u) => Some(u),
                Err(_) => None,
            },
            None => None,
        }
    }
}

/// The link of a room resolved against `base`, where it has one that resolves.
pub open spec fn room_link(r: Room, base: Seq<char>) -> Option<Seq<char>> {
    match r.href {
        Some(h) => joined_url(base, h@),
        None => None,
    }
}

/// The resolved links of `rooms`, in order, leaving out the rooms without one.
pub open spec fn room_links_spec(rooms: Seq<Room>, base: Seq<char>) -> Seq<Seq<char>>
    decreases rooms.len(),
{
    if rooms.len() == 0 {
        Seq::empty()
    } else {
        room_links_spec(rooms.drop_last(), base) + match room_link(rooms.last(), base) {
            Some(u) => seq![u],
            None => Seq::empty(),
        }
    }
}

/// The absolute URLs of the advertisements of `rooms`, in order, leaving out the rooms
/// without a link that resolves against `base`.
pub fn room_links(rooms: &Vec<Room>, base: &str) -> (r: Vec<String>)
    ensures
        views(r@) == room_links_spec(rooms@, base@),
{
    let mut links: Vec<String> = Vec::new();
    let n = rooms.len();
    let mut i: usize = 0;
    while i < n
        invariant
            n == rooms@.len(),
            i <= n,
            views(links@) == room_links_spec(rooms@.take(i as int), base@),
        decreases n - i,
    {
        let ghost before = links@;
        assert(rooms@.take(i + 1).drop_last() == rooms@.take(i as int));
        match rooms[i].url(base) {
            Some(u) => {
                links.push(u);
                assert(views(links@) =~= views(before).push(u@));
            },
            None => {},
        }
        i = i + 1;
    }
    assert(rooms@.take(n as int) == rooms@);
    links
}

} // verus!

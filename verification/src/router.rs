//! The global traffic router: which public WebSocket URL serves which region.
//!
//! The router is configured with a line such as
//! `us-east=ws://localhost:3001/ws,eu-west=ws://localhost:3002/ws` and
//! answers route requests for one region and listings of all regions.
use vstd::prelude::*;
use crate::text;

verus! {

/// The map that a list of (region, URL) pairs describes; a later pair for the
/// same region wins.
pub open spec fn pairs_to_map(ps: Seq<(Seq<char>, Seq<char>)>) -> Map<Seq<char>, Seq<char>>
    decreases ps.len(),
{
    if ps.len() == 0 {
        Map::empty()
    } else {
        pairs_to_map(ps.drop_last()).insert(ps.last().0, ps.last().1)
    }
}

/// The regions of a list of (region, URL) pairs, in order.
pub open spec fn first_components(ps: Seq<(Seq<char>, Seq<char>)>) -> Seq<Seq<char>> {
    ps.map_values(|p: (Seq<char>, Seq<char>)| p.0)
}

/// No region occurs twice among the pairs.
pub open spec fn regions_distinct(ps: Seq<(Seq<char>, Seq<char>)>) -> bool {
    forall|i: int, j: int| 0 <= i < j < ps.len() ==> #[trigger] ps[i].0 != #[trigger] ps[j].0
}

/// A strictly sorted list has no repeats.
proof fn lemma_sorted_distinct(ps: Seq<(Seq<char>, Seq<char>)>)
    requires
        text::strictly_sorted(first_components(ps)),
    ensures
        regions_distinct(ps),
{
    assert forall|i: int, j: int| 0 <= i < j < ps.len() implies #[trigger] ps[i].0
        != #[trigger] ps[j].0 by {
        assert(text::lex_lt(first_components(ps)[i], first_components(ps)[j]));
        text::lemma_lex_irreflexive(ps[i].0);
    }
}

/// With distinct regions, the map holds exactly the pairs.
proof fn lemma_pairs_to_map(ps: Seq<(Seq<char>, Seq<char>)>)
    requires
        regions_distinct(ps),
    ensures
        forall|k: Seq<char>|
            #[trigger] pairs_to_map(ps).contains_key(k) <==> first_components(ps).contains(k),
        forall|i: int| 0 <= i < ps.len() ==> pairs_to_map(ps)[#[trigger] ps[i].0] == ps[i].1,
        pairs_to_map(ps).dom().finite(),
        pairs_to_map(ps).len() == ps.len(),
    decreases ps.len(),
{
    if ps.len() > 0 {
        let init = ps.drop_last();
        assert(regions_distinct(init));
        lemma_pairs_to_map(init);
        assert(first_components(ps) =~= first_components(init).push(ps.last().0));
        assert(!first_components(init).contains(ps.last().0)) by {
            if first_components(init).contains(ps.last().0) {
                let i = choose|i: int|
                    0 <= i < init.len() && first_components(init)[i] == ps.last().0;
                assert(ps[i].0 == ps[ps.len() - 1].0);
            }
        }
        assert forall|k: Seq<char>| first_components(ps).contains(k) implies #[trigger] pairs_to_map(
            ps,
        ).contains_key(k) by {
            let i = choose|i: int| 0 <= i < ps.len() && first_components(ps)[i] == k;
            if i < ps.len() - 1 {
                assert(first_components(init)[i] == k);
            }
        }
        assert forall|k: Seq<char>| #[trigger] pairs_to_map(ps).contains_key(k) implies first_components(
            ps,
        ).contains(k) by {
            if k != ps.last().0 {
                assert(pairs_to_map(init).contains_key(k));
                let i = choose|i: int| 0 <= i < init.len() && first_components(init)[i] == k;
                assert(first_components(ps)[i] == k);
            }
            if k == ps.last().0 {
                assert(first_components(ps)[ps.len() - 1] == k);
            }
        }
        assert forall|i: int| 0 <= i < ps.len() implies pairs_to_map(ps)[#[trigger] ps[i].0]
            == ps[i].1 by {
            if i < ps.len() - 1 {
                assert(init[i] == ps[i]);
                assert(ps[i].0 != ps[ps.len() - 1].0);
            }
        }
    } else {
        assert(pairs_to_map(ps).dom() =~= Set::empty());
    }
}

/// The regions and their public WebSocket URLs, kept ordered by region.
pub struct RegionMap {
    entries: Vec<(String, String)>,
}

impl RegionMap {
    /// The (region, URL) pairs in their stored order.
    pub closed spec fn pairs(self) -> Seq<(Seq<char>, Seq<char>)> {
        self.entries@.map_values(|e: (String, String)| (e.0@, e.1@))
    }

    /// The regions, in increasing order.
    pub closed spec fn regions(self) -> Seq<Seq<char>> {
        first_components(self.pairs())
    }

    /// The regions are stored strictly increasing, so none occurs twice.
    #[verifier::type_invariant]
    closed spec fn regions_increase(self) -> bool {
        text::strictly_sorted(self.regions())
    }
}

impl View for RegionMap {
    type V = Map<Seq<char>, Seq<char>>;

    closed spec fn view(&self) -> Map<Seq<char>, Seq<char>> {
        pairs_to_map(self.pairs())
    }
}

impl RegionMap {
    /// The map, the ordered list of regions and what they describe agree.
    proof fn lemma_view(self)
        requires
            text::strictly_sorted(self.regions()),
        ensures
            forall|k: Seq<char>| #[trigger] self@.contains_key(k) <==> self.regions().contains(k),
            forall|i: int|
                0 <= i < self.entries.len() ==> self@[#[trigger] self.regions()[i]]
                    == self.pairs()[i].1,
            self@.dom().finite(),
            self@.len() == self.entries.len(),
    {
        lemma_sorted_distinct(self.pairs());
        lemma_pairs_to_map(self.pairs());
        assert forall|i: int| 0 <= i < self.entries.len() implies self@[#[trigger] self.regions()[i]]
            == self.pairs()[i].1 by {
            assert(self.regions()[i] == self.pairs()[i].0);
        }
    }

    /// A map without regions.
    pub fn new() -> (m: RegionMap)
        ensures
            m@ == Map::<Seq<char>, Seq<char>>::empty(),
            m.regions() == Seq::<Seq<char>>::empty(),
    {
        let m = RegionMap { entries: Vec::new() };
        assert(m.regions() =~= Seq::<Seq<char>>::empty());
        assert(m@ =~= Map::<Seq<char>, Seq<char>>::empty());
        m
    }

    /// The number of regions.
    pub fn len(&self) -> (n: usize)
        ensures
            n == self@.len(),
            n == self.regions().len(),
    {
        proof {
            use_type_invariant(self);
            self.lemma_view();
        }
        self.entries.len()
    }

    /// Whether there is no region.
    pub fn is_empty(&self) -> (b: bool)
        ensures
            b == (self@.len() == 0),
            b == (self@ == Map::<Seq<char>, Seq<char>>::empty()),
    {
        proof {
            use_type_invariant(self);
            self.lemma_view();
        }
        let b = self.entries.len() == 0;
        if !b {
            assert(self@.contains_key(self.regions()[0]));
        } else {
            assert(self@ =~= Map::<Seq<char>, Seq<char>>::empty());
        }
        b
    }

    /// How many stored regions are below `key`, and whether the next one is `key`.
    fn position(&self, key: &Vec<char>) -> (r: (usize, bool))
        ensures
            r.0 <= self.entries.len(),
            forall|j: int| 0 <= j < r.0 ==> text::lex_lt(#[trigger] self.regions()[j], key@),
            r.1 ==> r.0 < self.entries.len() && self.regions()[r.0 as int] == key@,
            !r.1 && r.0 < self.entries.len() ==> text::lex_lt(key@, self.regions()[r.0 as int]),
    {
        let n = self.entries.len();
        let mut i: usize = 0;
        while i < n
            invariant
                i <= n == self.entries.len(),
                forall|j: int| 0 <= j < i ==> text::lex_lt(#[trigger] self.regions()[j], key@),
            decreases n - i,
        {
            let k = text::chars_of(self.entries[i].0.as_str());
            assert(k@ == self.regions()[i as int]);
            let c = text::lex_compare(&k, key);
            if c == 0 {
                return (i, true);
            } else if c > 0 {
                return (i, false);
            }
            i = i + 1;
        }
        (i, false)
    }

    /// Whether `key` is one of the regions.
    pub fn contains_key(&self, key: &str) -> (b: bool)
        ensures
            b == self@.contains_key(key@),
    {
        proof {
            use_type_invariant(self);
            self.lemma_view();
        }
        let k = text::chars_of(key);
        let (i, found) = self.position(&k);
        if !found {
            assert(!self.regions().contains(key@)) by {
                if self.regions().contains(key@) {
                    let j = choose|j: int| 0 <= j < self.regions().len() && self.regions()[j] == key@;
                    text::lemma_lex_irreflexive(key@);
                    if j > i {
                        assert(text::lex_lt(self.regions()[i as int], self.regions()[j]));
                        text::lemma_lex_asymmetric(key@, self.regions()[i as int]);
                    }
                }
            }
        }
        found
    }

    /// The URL of region `key`, if it is one of the regions.
    pub fn get(&self, key: &str) -> (r: Option<String>)
        ensures
            match r {
                Some(url) => self@.contains_key(key@) && url@ == self@[key@],
                None => !self@.contains_key(key@),
            },
    {
        proof {
            use_type_invariant(self);
            self.lemma_view();
        }
        let k = text::chars_of(key);
        let (i, found) = self.position(&k);
        if found {
            assert(self.pairs()[i as int].1 == self.entries[i as int].1@);
            Some(self.entries[i].1.clone())
        } else {
            assert(!self.regions().contains(key@)) by {
                if self.regions().contains(key@) {
                    let j = choose|j: int| 0 <= j < self.regions().len() && self.regions()[j] == key@;
                    text::lemma_lex_irreflexive(key@);
                    if j > i {
                        assert(text::lex_lt(self.regions()[i as int], self.regions()[j]));
                        text::lemma_lex_asymmetric(key@, self.regions()[i as int]);
                    }
                }
            }
            None
        }
    }

    /// Sets the URL of region `key` to `value`, adding the region if it is new.
    pub fn insert(&mut self, key: String, value: String)
        ensures
            final(self)@ == old(self)@.insert(key@, value@),
    {
        proof {
            use_type_invariant(&*self);
            self.lemma_view();
        }
        let k = text::chars_of(key.as_str());
        let (i, found) = self.position(&k);
        let ghost old_pairs = self.pairs();
        let mut entries = Vec::new();
        std::mem::swap(&mut entries, &mut self.entries);
        let ghost key_v = key@;
        let ghost value_v = value@;
        if found {
            entries.set(i, (key, value));
        } else {
            entries.insert(i, (key, value));
        }
        let ghost new_pairs = entries@.map_values(|e: (String, String)| (e.0@, e.1@));
        proof {
            if found {
                assert(new_pairs =~= old_pairs.update(i as int, (key_v, value_v)));
            } else {
                assert(new_pairs =~= old_pairs.insert(i as int, (key_v, value_v)));
            }
            let ks = first_components(new_pairs);
            let oks = first_components(old_pairs);
            assert forall|a: int, b: int| 0 <= a < b < ks.len() implies text::lex_lt(
                #[trigger] ks[a],
                #[trigger] ks[b],
            ) by {
                if found {
                    if a == i {
                        assert(ks[a] == oks[a]);
                    } else if b == i {
                        assert(ks[b] == oks[b]);
                    }
                    assert(ks[a] == oks[a] && ks[b] == oks[b]);
                } else {
                    if b < i {
                        assert(ks[a] == oks[a] && ks[b] == oks[b]);
                    } else if b == i {
                        assert(ks[a] == oks[a]);
                    } else if a == i {
                        assert(ks[b] == oks[b - 1]);
                        if b - 1 > i {
                            assert(text::lex_lt(oks[i as int], oks[b - 1]));
                            text::lemma_lex_transitive(key_v, oks[i as int], oks[b - 1]);
                        }
                    } else if a < i {
                        assert(ks[a] == oks[a] && ks[b] == oks[b - 1]);
                        assert(text::lex_lt(oks[a], key_v));
                        assert(text::lex_lt(key_v, oks[i as int]));
                        text::lemma_lex_transitive(oks[a], key_v, oks[i as int]);
                        if b - 1 > i {
                            assert(text::lex_lt(oks[i as int], oks[b - 1]));
                            text::lemma_lex_transitive(oks[a], oks[i as int], oks[b - 1]);
                        }
                    } else {
                        assert(ks[a] == oks[a - 1] && ks[b] == oks[b - 1]);
                    }
                }
            }
            lemma_sorted_distinct(new_pairs);
            lemma_pairs_to_map(new_pairs);
            let m = pairs_to_map(new_pairs);
            let om = old(self)@;
            assert forall|q: Seq<char>| #[trigger] m.contains_key(q) <==> om.insert(
                key_v,
                value_v,
            ).contains_key(q) by {
                if om.contains_key(q) && q != key_v {
                    let j = choose|j: int| 0 <= j < oks.len() && oks[j] == q;
                    if found {
                        assert(ks[j] == q);
                    } else if j < i {
                        assert(ks[j] == q);
                    } else {
                        assert(ks[j + 1] == q);
                    }
                }
                if found {
                    assert(ks[i as int] == key_v);
                } else {
                    assert(ks[i as int] == key_v);
                }
                if m.contains_key(q) && q != key_v {
                    let j = choose|j: int| 0 <= j < ks.len() && ks[j] == q;
                    if found {
                        assert(oks[j] == q);
                    } else if j < i {
                        assert(oks[j] == q);
                    } else if j > i {
                        assert(oks[j - 1] == q);
                    }
                }
            }
            assert forall|q: Seq<char>| #[trigger] m.contains_key(q) implies m[q] == om.insert(
                key_v,
                value_v,
            )[q] by {
                let j = choose|j: int| 0 <= j < ks.len() && ks[j] == q;
                assert(m[new_pairs[j].0] == new_pairs[j].1);
                if q != key_v {
                    if found || j < i {
                        assert(old_pairs[j] == new_pairs[j]);
                        assert(oks[j] == old_pairs[j].0);
                        assert(om[oks[j]] == old_pairs[j].1);
                    } else {
                        assert(old_pairs[j - 1] == new_pairs[j]);
                        assert(oks[j - 1] == old_pairs[j - 1].0);
                        assert(om[oks[j - 1]] == old_pairs[j - 1].1);
                    }
                } else {
                    if j != i {
                        assert(new_pairs[i as int].0 == key_v);
                    }
                }
            }
            assert(m =~= om.insert(key_v, value_v));
        }
        self.entries = entries;
    }

    /// The regions, in increasing order.
    pub fn keys(&self) -> (ks: Vec<String>)
        ensures
            ks@.map_values(|k: String| k@) == self.regions(),
            text::strictly_sorted(self.regions()),
            forall|k: Seq<char>| #[trigger] self@.contains_key(k) <==> self.regions().contains(k),
    {
        proof {
            use_type_invariant(self);
            self.lemma_view();
        }
        let mut ks: Vec<String> = Vec::new();
        for i in 0..self.entries.len()
            invariant
                ks.len() == i,
                forall|j: int| 0 <= j < i ==> #[trigger] ks@[j]@ == self.regions()[j],
        {
            assert(self.regions()[i as int] == self.entries@[i as int].0@);
            ks.push(self.entries[i].0.clone());
        }
        assert(ks@.map_values(|k: String| k@) =~= self.regions());
        ks
    }
}


/// What one comma-separated entry of the configuration says: the text before
/// the first `=` is the region, the text after it the URL, both trimmed; an
/// entry without `=`, or with an empty side, says nothing.
pub open spec fn parse_entry(e: Seq<char>) -> Option<(Seq<char>, Seq<char>)> {
    if e.contains('=') {
        let i = text::first_index(e, '=');
        let region = text::trim(e.take(i));
        let url = text::trim(e.skip(i + 1));
        if region.len() > 0 && url.len() > 0 {
            Some((region, url))
        } else {
            None
        }
    } else {
        None
    }
}

/// `m` updated with what entry `e` says.
pub open spec fn add_entry(m: Map<Seq<char>, Seq<char>>, e: Seq<char>) -> Map<Seq<char>, Seq<char>> {
    match parse_entry(e) {
        Some(p) => m.insert(p.0, p.1),
        None => m,
    }
}

/// The map that a list of entries describes, read in order: a later entry for
/// the same region wins.
pub open spec fn entries_to_map(es: Seq<Seq<char>>) -> Map<Seq<char>, Seq<char>>
    decreases es.len(),
{
    if es.len() == 0 {
        Map::empty()
    } else {
        add_entry(entries_to_map(es.drop_last()), es.last())
    }
}

/// The map that a configuration line such as
/// `us-east=ws://localhost:3001/ws,eu-west=ws://localhost:3002/ws` describes.
pub open spec fn region_map_of(raw: Seq<char>) -> Map<Seq<char>, Seq<char>> {
    entries_to_map(text::split_on(raw, ','))
}

/// Adds what entry `e` says to `map`.
fn add_entry_to(map: &mut RegionMap, e: &Vec<char>)
    ensures
        final(map)@ == add_entry(old(map)@, e@),
{
    match text::index_of_char(e, '=') {
        Some(i) => {
            proof {
                text::lemma_first_index_unique(e@, '=', i as int);
            }
            let region_part = text::sub_chars(e, 0, i);
            let url_part = text::sub_chars(e, i + 1, e.len());
            assert(region_part@ =~= e@.take(i as int));
            assert(url_part@ =~= e@.skip(i + 1));
            let region = text::trim_chars(&region_part);
            let url = text::trim_chars(&url_part);
            if region.len() > 0 && url.len() > 0 {
                map.insert(text::string_of(&region), text::string_of(&url));
            }
        },
        None => {},
    }
}

/// Reads the router's configuration line: comma-separated `region=url`
/// entries; white space around either side is dropped, entries without `=`
/// or with an empty side are skipped, and a later entry for a region wins.
pub fn parse_region_map(raw: &str) -> (m: RegionMap)
    ensures
        m@ == region_map_of(raw@),
{
    let v = text::chars_of(raw);
    let mut map = RegionMap::new();
    let mut cur: Vec<char> = Vec::new();
    assert(v@.take(0) =~= Seq::<char>::empty());
    assert(map@ =~= entries_to_map(text::split_on(v@.take(0), ',').drop_last()));
    for i in 0..v.len()
        invariant
            text::split_on(v@.take(i as int), ',').len() >= 1,
            map@ == entries_to_map(text::split_on(v@.take(i as int), ',').drop_last()),
            cur@ == text::split_on(v@.take(i as int), ',').last(),
    {
        let ghost before = text::split_on(v@.take(i as int), ',');
        assert(v@.take(i + 1).drop_last() =~= v@.take(i as int));
        assert(v@.take(i + 1).last() == v@[i as int]);
        if v[i] == ',' {
            add_entry_to(&mut map, &cur);
            cur = Vec::new();
            assert(text::split_on(v@.take(i + 1), ',') == before.push(Seq::empty()));
            assert(before.push(Seq::empty()).drop_last() =~= before);
        } else {
            cur.push(v[i]);
            let ghost after = text::split_on(v@.take(i + 1), ',');
            assert(after == before.update(before.len() - 1, before.last().push(v@[i as int])));
            assert(after.drop_last() =~= before.drop_last());
        }
    }
    add_entry_to(&mut map, &cur);
    assert(v@.take(v.len() as int) =~= v@);
    map
}

/// The HTTP form of a WebSocket URL: the first `wss://` becomes `https://`
/// when the URL starts with it; otherwise the first `ws://` becomes `http://`.
pub open spec fn http_form(ws_url: Seq<char>) -> Seq<char> {
    if text::starts_with(ws_url, "wss://"@) {
        text::replace_first(ws_url, "wss://"@, "https://"@)
    } else {
        text::replace_first(ws_url, "ws://"@, "http://"@)
    }
}

/// The latency-probe URL of a regional server: its HTTP form with a final
/// `/ws` replaced by `/ping`, or with `/ping` appended when it does not end in
/// `/ws`.
pub open spec fn ping_url(ws_url: Seq<char>) -> Seq<char> {
    let h = http_form(ws_url);
    if text::ends_with(h, "/ws"@) {
        h.take(h.len() - ("/ws"@).len()) + "/ping"@
    } else {
        h + "/ping"@
    }
}

/// Converts a WebSocket URL such as `ws://localhost:3001/ws` to the HTTP
/// ping endpoint `http://localhost:3001/ping`.
pub fn derive_ping_url(ws_url: &str) -> (r: String)
    ensures
        r@ == ping_url(ws_url@),
{
    let u = text::chars_of(ws_url);
    let wss = text::chars_of("wss://");
    let h = if text::starts_with_chars(&u, &wss) {
        text::replace_first_chars(&u, &wss, &text::chars_of("https://"))
    } else {
        text::replace_first_chars(&u, &text::chars_of("ws://"), &text::chars_of("http://"))
    };
    let ws_suffix = text::chars_of("/ws");
    let ping = text::chars_of("/ping");
    let r = if text::ends_with_chars(&h, &ws_suffix) {
        let base = text::sub_chars(&h, 0, h.len() - ws_suffix.len());
        assert(base@ =~= h@.take(h@.len() - ws_suffix@.len()));
        text::concat_chars(&base, &ping)
    } else {
        text::concat_chars(&h, &ping)
    };
    text::string_of(&r)
}

/// The answer to a route request for a known region.
pub struct RouteResponse {
    pub region: String,
    pub ws_url: String,
}

/// The answer to a route request for an unknown region.
pub struct ErrorResponse {
    pub error: String,
    pub available_regions: Vec<String>,
}

/// The error text for a request for an unknown region.
pub open spec fn unknown_region_message(region: Seq<char>) -> Seq<char> {
    "Unknown region '"@ + region + "'"@
}

/// Answers a route request: the WebSocket URL of `region` when the router
/// knows it, else an error naming the region and listing the known regions
/// in increasing order.
pub fn route(map: &RegionMap, region: &str) -> (r: Result<RouteResponse, ErrorResponse>)
    ensures
        r is Ok <==> map@.contains_key(region@),
        r matches Ok(resp) ==> resp.region@ == region@ && resp.ws_url@ == map@[region@],
        r matches Err(e) ==> {
            &&& e.error@ == unknown_region_message(region@)
            &&& e.available_regions@.map_values(|s: String| s@) == map.regions()
            &&& text::strictly_sorted(map.regions())
            &&& forall|k: Seq<char>| #[trigger] map@.contains_key(k) <==> map.regions().contains(k)
        },
{
    match map.get(region) {
        Some(url) => Ok(RouteResponse { region: text::string_of(&text::chars_of(region)), ws_url: url }),
        None => {
            let front = text::chars_of("Unknown region '");
            let name = text::chars_of(region);
            let back = text::chars_of("'");
            let msg = text::concat_chars(&text::concat_chars(&front, &name), &back);
            Err(ErrorResponse { error: text::string_of(&msg), available_regions: map.keys() })
        },
    }
}

/// One entry of the region listing that clients use to probe latency.
pub struct RegionCandidate {
    pub region: String,
    pub ping_url: String,
    pub ws_url: String,
}

/// Lists every region with its ping URL and WebSocket URL, in increasing
/// order of region.
pub fn region_candidates(map: &RegionMap) -> (cs: Vec<RegionCandidate>)
    ensures
        cs.len() == map.regions().len(),
        text::strictly_sorted(map.regions()),
        forall|k: Seq<char>| #[trigger] map@.contains_key(k) <==> map.regions().contains(k),
        forall|i: int|
            0 <= i < cs.len() ==> {
                &&& (#[trigger] cs@[i]).region@ == map.regions()[i]
                &&& cs@[i].ws_url@ == map@[map.regions()[i]]
                &&& cs@[i].ping_url@ == ping_url(cs@[i].ws_url@)
            },
{
    proof {
        use_type_invariant(map);
        map.lemma_view();
    }
    let mut cs: Vec<RegionCandidate> = Vec::new();
    for i in 0..map.entries.len()
        invariant
            cs.len() == i,
            text::strictly_sorted(map.regions()),
            forall|j: int|
                0 <= j < map.entries.len() ==> map@[#[trigger] map.regions()[j]]
                    == map.pairs()[j].1,
            forall|j: int|
                0 <= j < i ==> {
                    &&& (#[trigger] cs@[j]).region@ == map.regions()[j]
                    &&& cs@[j].ws_url@ == map@[map.regions()[j]]
                    &&& cs@[j].ping_url@ == ping_url(cs@[j].ws_url@)
                },
    {
        let entry = &map.entries[i];
        assert(map.regions()[i as int] == entry.0@);
        assert(map.pairs()[i as int].1 == entry.1@);
        let c = RegionCandidate {
            region: entry.0.clone(),
            ping_url: derive_ping_url(entry.1.as_str()),
            ws_url: entry.1.clone(),
        };
        cs.push(c);
    }
    cs
}

/// A region or URL as the router keeps it: not empty, without white space at
/// either end and without a comma.
pub open spec fn clean_text(s: Seq<char>) -> bool {
    s.len() > 0 && text::no_edge_white_space(s) && !s.contains(',')
}

/// What a list of comma-free entries describes is clean.
proof fn lemma_entries_clean(es: Seq<Seq<char>>)
    requires
        forall|i: int| 0 <= i < es.len() ==> !(#[trigger] es[i]).contains(','),
    ensures
        forall|k: Seq<char>| #[trigger] entries_to_map(es).contains_key(k) ==> {
            &&& clean_text(k)
            &&& !k.contains('=')
            &&& clean_text(entries_to_map(es)[k])
        },
    decreases es.len(),
{
    if es.len() > 0 {
        let init = es.drop_last();
        assert forall|i: int| 0 <= i < init.len() implies !(#[trigger] init[i]).contains(',') by {
            assert(init[i] == es[i]);
        }
        lemma_entries_clean(init);
        let e = es.last();
        assert(!es[es.len() - 1].contains(','));
        if e.contains('=') {
            let i = text::first_index(e, '=');
            text::lemma_first_index_exists(e, '=');
            let before = e.take(i);
            let after = e.skip(i + 1);
            text::lemma_trim(before);
            text::lemma_trim(after);
            assert(!before.contains('=')) by {
                if before.contains('=') {
                    let j = choose|j: int| 0 <= j < before.len() && before[j] == '=';
                    assert(e[j] == '=');
                }
            }
            assert(!before.contains(',')) by {
                if before.contains(',') {
                    let j = choose|j: int| 0 <= j < before.len() && before[j] == ',';
                    assert(e[j] == ',');
                }
            }
            assert(!after.contains(',')) by {
                if after.contains(',') {
                    let j = choose|j: int| 0 <= j < after.len() && after[j] == ',';
                    assert(e[i + 1 + j] == ',');
                }
            }
            assert(!text::trim(before).contains('=')) by {
                if text::trim(before).contains('=') {
                    assert(before.contains('='));
                }
            }
            assert(!text::trim(before).contains(',')) by {
                if text::trim(before).contains(',') {
                    assert(before.contains(','));
                }
            }
            assert(!text::trim(after).contains(',')) by {
                if text::trim(after).contains(',') {
                    assert(after.contains(','));
                }
            }
        }
        let m0 = entries_to_map(init);
        assert(entries_to_map(es) == add_entry(m0, e));
        assert forall|k: Seq<char>| #[trigger] entries_to_map(es).contains_key(k) implies {
            &&& clean_text(k)
            &&& !k.contains('=')
            &&& clean_text(entries_to_map(es)[k])
        } by {
            match parse_entry(e) {
                Some(p) => {
                    if k != p.0 {
                        assert(m0.contains_key(k));
                        assert(entries_to_map(es)[k] == m0[k]);
                    }
                },
                None => {
                    assert(m0.contains_key(k));
                },
            }
        }
    }
}

/// Every region that a configuration line describes, and its URL, is clean:
/// not empty, without white space at either end and without a comma; and no
/// region holds `=`.
pub proof fn law_parsed_regions_are_clean(raw: Seq<char>)
    ensures
        forall|k: Seq<char>| #[trigger] region_map_of(raw).contains_key(k) ==> {
            &&& clean_text(k)
            &&& !k.contains('=')
            &&& clean_text(region_map_of(raw)[k])
        },
{
    text::lemma_split_pieces(raw, ',');
    lemma_entries_clean(text::split_on(raw, ','));
}

/// Every ping URL ends with `/ping`.
pub proof fn law_ping_url_ends_with_ping(ws_url: Seq<char>)
    ensures
        text::ends_with(ping_url(ws_url), "/ping"@),
{
    let h = http_form(ws_url);
    let base = if text::ends_with(h, "/ws"@) {
        h.take(h.len() - ("/ws"@).len())
    } else {
        h
    };
    assert(ping_url(ws_url) == base + "/ping"@);
    assert((base + "/ping"@).skip(base.len() as int) =~= "/ping"@);
}

/// Reading two lists of entries one after the other: what the second says
/// overrides what the first says.
proof fn lemma_entries_append(x: Seq<Seq<char>>, y: Seq<Seq<char>>)
    ensures
        entries_to_map(x + y) == entries_to_map(x).union_prefer_right(entries_to_map(y)),
    decreases y.len(),
{
    if y.len() == 0 {
        assert(x + y =~= x);
        assert(entries_to_map(x).union_prefer_right(entries_to_map(y)) =~= entries_to_map(x));
    } else {
        let y0 = y.drop_last();
        assert((x + y).drop_last() =~= x + y0);
        assert((x + y).last() == y.last());
        lemma_entries_append(x, y0);
        let m = entries_to_map(x);
        let e0 = entries_to_map(y0);
        match parse_entry(y.last()) {
            Some(p) => {
                assert(m.union_prefer_right(e0).insert(p.0, p.1) =~= m.union_prefer_right(
                    e0.insert(p.0, p.1),
                ));
            },
            None => {},
        }
    }
}

/// Configuration lines compose: the line `a,b` describes what `a` describes,
/// overridden by what `b` describes.
pub proof fn law_region_map_of_joined_lines(a: Seq<char>, b: Seq<char>)
    ensures
        region_map_of(a + seq![','] + b) == region_map_of(a).union_prefer_right(region_map_of(b)),
{
    text::lemma_split_join(a, b, ',');
    lemma_entries_append(text::split_on(a, ','), text::split_on(b, ','));
}

} // verus!

//! The `FETCH_HOST_OVERRIDES` setting: `host:port=addr|addr,...`, mapping a
//! host key to the socket addresses a fetch uses in place of DNS.
//!
//! The text is read in two steps.  `plan_fetch_host_overrides` splits it into
//! entries, host keys and raw address texts, stopping at the first entry
//! whose shape is wrong.  The raw address texts are then parsed as socket
//! addresses by the caller, and `finish_fetch_host_overrides` turns the plan
//! and those outcomes into the overrides or into the first error, in the
//! order in which a single pass over the text meets them.

use vstd::prelude::*;
use crate::netaddr::SocketAddress;
use crate::text::{chars_of, split_char, split_chars, split_once_char, split_once_chars, string_of, trim, trim_chars, views};

verus! {

/// What `{:?}` (`Debug` for `str`) writes for a text: the quoted, escaped text.
pub uninterp spec fn str_debug(s: Seq<char>) -> Seq<char>;

/// Renders a text with `Debug` for `str`.  The contract names the result
/// and claims only that it is a function of the text.
#[verifier::external_body]
pub(crate) fn debug_text(s: &str) -> (r: String)
    ensures
        r@ == str_debug(s@),
{
    format!("{s:?}")
}

/// The trimmed pieces that are not empty, in order.
pub open spec fn nonempty_trimmed(pieces: Seq<Seq<char>>) -> Seq<Seq<char>>
    decreases pieces.len(),
{
    if pieces.len() == 0 {
        Seq::empty()
    } else {
        let p = nonempty_trimmed(pieces.drop_last());
        let t = trim(pieces.last());
        if t.len() > 0 {
            p.push(t)
        } else {
            p
        }
    }
}

/// Trims each piece and keeps the non-empty ones.
pub fn keep_nonempty_trimmed(pieces: &Vec<Vec<char>>) -> (r: Vec<Vec<char>>)
    ensures
        views(r@) == nonempty_trimmed(views(pieces@)),
{
    let mut out: Vec<Vec<char>> = Vec::new();
    let mut i: usize = 0;
    while i < pieces.len()
        invariant
            i <= pieces.len(),
            views(out@) == nonempty_trimmed(views(pieces@).take(i as int)),
        decreases pieces.len() - i,
    {
        proof {
            assert(views(pieces@).take(i + 1).drop_last() =~= views(pieces@).take(i as int));
        }
        let t = trim_chars(&pieces[i]);
        if t.len() > 0 {
            let ghost before = out@;
            out.push(t);
            proof {
                assert(views(out@) =~= views(before).push(t@));
            }
        }
        i += 1;
    }
    proof {
        assert(views(pieces@).take(pieces.len() as int) =~= views(pieces@));
    }
    out
}

pub open spec fn bad_syntax_message(entry: Seq<char>) -> Seq<char> {
    "FETCH_HOST_OVERRIDES entry "@ + str_debug(entry) + " must use host:port=addr|addr syntax"@
}

pub open spec fn empty_host_message() -> Seq<char> {
    "FETCH_HOST_OVERRIDES host key must not be empty"@
}

pub open spec fn no_address_message(entry: Seq<char>) -> Seq<char> {
    "FETCH_HOST_OVERRIDES entry "@ + str_debug(entry) + " must include at least one socket address"@
}

pub open spec fn bad_address_message(entry: Seq<char>, raw: Seq<char>, error: Seq<char>) -> Seq<
    char,
> {
    "FETCH_HOST_OVERRIDES entry "@ + str_debug(entry) + " contains invalid socket address "@
        + str_debug(raw) + ": "@ + error
}

/// One entry's shape: its host key and raw address texts, or the error.
pub open spec fn entry_shape(entry: Seq<char>) -> Result<(Seq<char>, Seq<Seq<char>>), Seq<char>> {
    match split_once_char(entry, '=') {
        None => Err(bad_syntax_message(entry)),
        Some((host, addrs)) => if trim(host).len() == 0 {
            Err(empty_host_message())
        } else {
            let raw = nonempty_trimmed(split_char(addrs, '|'));
            if raw.len() == 0 {
                Err(no_address_message(entry))
            } else {
                Ok((trim(host), raw))
            }
        },
    }
}

/// An entry of the plan: the entry text, its host key and its raw address texts.
pub type EntryView = (Seq<char>, Seq<char>, Seq<Seq<char>>);

/// The well-shaped entries before the first badly shaped one, and that
/// entry's error if there is one.
pub open spec fn plan_entries(entries: Seq<Seq<char>>) -> (Seq<EntryView>, Option<Seq<char>>)
    decreases entries.len(),
{
    if entries.len() == 0 {
        (Seq::empty(), None)
    } else {
        let (ok, failure) = plan_entries(entries.drop_last());
        if failure is Some {
            (ok, failure)
        } else {
            match entry_shape(entries.last()) {
                Err(m) => (ok, Some(m)),
                Ok((host, raw)) => (ok.push((entries.last(), host, raw)), None),
            }
        }
    }
}

/// The plan for a setting text.
pub open spec fn plan_spec(input: Seq<char>) -> (Seq<EntryView>, Option<Seq<char>>) {
    plan_entries(nonempty_trimmed(split_char(input, ',')))
}

/// A well-shaped entry of the setting.
pub struct OverrideEntry {
    pub entry: String,
    pub host: String,
    pub raw_addrs: Vec<String>,
}

impl View for OverrideEntry {
    type V = EntryView;

    open spec fn view(&self) -> EntryView {
        (self.entry@, self.host@, self.raw_addrs@.map_values(|s: String| s@))
    }
}

/// The entries of a setting text up to its first badly shaped entry.
pub struct OverridePlan {
    pub entries: Vec<OverrideEntry>,
    pub failure: Option<String>,
}

pub open spec fn entry_views(v: Seq<OverrideEntry>) -> Seq<EntryView> {
    v.map_values(|e: OverrideEntry| e@)
}

pub open spec fn option_text(o: Option<String>) -> Option<Seq<char>> {
    match o {
        Some(s) => Some(s@),
        None => None,
    }
}

impl View for OverridePlan {
    type V = (Seq<EntryView>, Option<Seq<char>>);

    open spec fn view(&self) -> (Seq<EntryView>, Option<Seq<char>>) {
        (entry_views(self.entries@), option_text(self.failure))
    }
}

pub fn strings_of(v: &Vec<Vec<char>>) -> (r: Vec<String>)
    ensures
        r@.map_values(|s: String| s@) == views(v@),
{
    let mut out: Vec<String> = Vec::new();
    let mut i: usize = 0;
    while i < v.len()
        invariant
            i <= v.len(),
            out@.map_values(|s: String| s@) == views(v@).take(i as int),
        decreases v.len() - i,
    {
        let s = string_of(&v[i]);
        let ghost before = out@;
        out.push(s);
        proof {
            assert(out@.map_values(|s: String| s@) =~= before.map_values(|s: String| s@).push(
                s@,
            ));
            assert(views(v@).take(i + 1) =~= views(v@).take(i as int).push(v@[i as int]@));
        }
        i += 1;
    }
    proof {
        assert(views(v@).take(v.len() as int) =~= views(v@));
    }
    out
}

fn shape_entry(entry: &Vec<char>) -> (r: Result<(Vec<char>, Vec<Vec<char>>), String>)
    ensures
        match r {
            Ok((h, raw)) => entry_shape(entry@) == Ok::<(Seq<char>, Seq<Seq<char>>), Seq<char>>(
                (h@, views(raw@)),
            ),
            Err(m) => entry_shape(entry@) == Err::<(Seq<char>, Seq<Seq<char>>), Seq<char>>(m@),
        },
{
    let entry_text = string_of(entry);
    match split_once_chars(entry, '=') {
        None => {
            let mut m = "FETCH_HOST_OVERRIDES entry ".to_owned();
            let d = debug_text(entry_text.as_str());
            m.append(d.as_str());
            m.append(" must use host:port=addr|addr syntax");
            Err(m)
        },
        Some((host, addrs)) => {
            let host = trim_chars(&host);
            if host.len() == 0 {
                return Err("FETCH_HOST_OVERRIDES host key must not be empty".to_owned());
            }
            let pieces = split_chars(&addrs, '|');
            let raw = keep_nonempty_trimmed(&pieces);
            if raw.len() == 0 {
                let mut m = "FETCH_HOST_OVERRIDES entry ".to_owned();
                let d = debug_text(entry_text.as_str());
                m.append(d.as_str());
                m.append(" must include at least one socket address");
                return Err(m);
            }
            Ok((host, raw))
        },
    }
}

/// Splits a setting text into its well-shaped entries, up to the first
/// badly shaped one.
pub fn plan_fetch_host_overrides(input: &str) -> (r: OverridePlan)
    ensures
        r@ == plan_spec(input@),
{
    let chars = chars_of(input);
    let pieces = split_chars(&chars, ',');
    let entries = keep_nonempty_trimmed(&pieces);
    let ghost all = views(entries@);
    let mut planned: Vec<OverrideEntry> = Vec::new();
    let mut i: usize = 0;
    while i < entries.len()
        invariant
            i <= entries.len(),
            all == views(entries@),
            all == nonempty_trimmed(split_char(input@, ',')),
            plan_entries(all.take(i as int)) == (entry_views(planned@), None::<Seq<char>>),
        decreases entries.len() - i,
    {
        proof {
            assert(all.take(i + 1).drop_last() =~= all.take(i as int));
        }
        match shape_entry(&entries[i]) {
            Err(m) => {
                proof {
                    assert(all.take(i + 1).last() == entries@[i as int]@);
                    assert(plan_entries(all.take(i + 1)) == (entry_views(planned@), Some(m@)));
                    lemma_plan_stops(all, i as int + 1);
                    assert(plan_entries(all) == (entry_views(planned@), Some(m@)));
                    assert(all == nonempty_trimmed(split_char(input@, ',')));
                }
                return OverridePlan { entries: planned, failure: Some(m) };
            },
            Ok((host, raw)) => {
                let e = OverrideEntry {
                    entry: string_of(&entries[i]),
                    host: string_of(&host),
                    raw_addrs: strings_of(&raw),
                };
                let ghost before = planned@;
                planned.push(e);
                proof {
                    assert(entry_views(planned@) =~= entry_views(before).push(e@));
                }
            },
        }
        i += 1;
    }
    proof {
        assert(all.take(entries.len() as int) =~= all);
    }
    OverridePlan { entries: planned, failure: None }
}

/// Once a prefix of the entries holds a badly shaped one, later entries
/// change nothing.
proof fn lemma_plan_stops(entries: Seq<Seq<char>>, k: int)
    requires
        0 <= k <= entries.len(),
        plan_entries(entries.take(k)).1 is Some,
    ensures
        plan_entries(entries) == plan_entries(entries.take(k)),
    decreases entries.len() - k,
{
    if k < entries.len() {
        assert(entries.take(k + 1).drop_last() =~= entries.take(k));
        lemma_plan_stops(entries, k + 1);
    } else {
        assert(entries.take(k) =~= entries);
    }
}

/// The socket addresses a fetch uses for a host key, in place of DNS.
/// Keys are unique.
pub struct HostOverrides {
    pub pairs: Vec<(String, Vec<SocketAddress>)>,
}

pub open spec fn pair_views(p: Seq<(String, Vec<SocketAddress>)>) -> Seq<(Seq<char>, Seq<SocketAddress>)> {
    p.map_values(|x: (String, Vec<SocketAddress>)| (x.0@, x.1@))
}

/// The map that inserting the pairs in order builds (a later pair replaces
/// an earlier one with the same key).
pub open spec fn map_of(p: Seq<(Seq<char>, Seq<SocketAddress>)>) -> Map<Seq<char>, Seq<SocketAddress>>
    decreases p.len(),
{
    if p.len() == 0 {
        Map::empty()
    } else {
        map_of(p.drop_last()).insert(p.last().0, p.last().1)
    }
}

pub open spec fn keys_unique(p: Seq<(Seq<char>, Seq<SocketAddress>)>) -> bool {
    forall|i: int, j: int| 0 <= i < j < p.len() ==> p[i].0 != p[j].0
}

impl View for HostOverrides {
    type V = Map<Seq<char>, Seq<SocketAddress>>;

    open spec fn view(&self) -> Map<Seq<char>, Seq<SocketAddress>> {
        map_of(pair_views(self.pairs@))
    }
}

impl HostOverrides {
    pub open spec fn wf(&self) -> bool {
        keys_unique(pair_views(self.pairs@))
    }

    /// No overrides.
    pub fn new() -> (r: HostOverrides)
        ensures
            r.wf(),
            r@ == Map::<Seq<char>, Seq<SocketAddress>>::empty(),
    {
        HostOverrides { pairs: Vec::new() }
    }

    /// The addresses for `key`, if it has an override.
    pub fn get(&self, key: &String) -> (r: Option<Vec<SocketAddress>>)
        requires
            self.wf(),
        ensures
            match r {
                Some(v) => self@.contains_key(key@) && self@[key@] == v@,
                None => !self@.contains_key(key@),
            },
    {
        let mut i: usize = 0;
        while i < self.pairs.len()
            invariant
                self.wf(),
                i <= self.pairs.len(),
                forall|j: int| 0 <= j < i ==> pair_views(self.pairs@)[j].0 != key@,
            decreases self.pairs.len() - i,
        {
            if self.pairs[i].0.eq(key) {
                proof {
                    lemma_map_of_at(pair_views(self.pairs@), i as int);
                }
                return Some(self.pairs[i].1.clone());
            }
            i += 1;
        }
        proof {
            lemma_unnamed_host_has_no_override(pair_views(self.pairs@), key@);
        }
        None
    }

    /// Sets the addresses for `key`, replacing any earlier ones.
    pub fn insert(&mut self, key: String, addrs: Vec<SocketAddress>)
        requires
            old(self).wf(),
        ensures
            final(self).wf(),
            final(self)@ == old(self)@.insert(key@, addrs@),
    {
        let ghost p = pair_views(self.pairs@);
        let mut i: usize = 0;
        while i < self.pairs.len()
            invariant
                i <= self.pairs.len(),
                p == pair_views(self.pairs@),
                p == pair_views(old(self).pairs@),
                keys_unique(p),
                forall|j: int| 0 <= j < i ==> p[j].0 != key@,
            decreases self.pairs.len() - i,
        {
            if self.pairs[i].0.eq(&key) {
                let ghost kv = key@;
                let ghost av = addrs@;
                self.pairs.set(i, (key, addrs));
                proof {
                    assert(p[i as int].0 == kv);
                    assert(pair_views(self.pairs@) =~= p.update(i as int, (kv, av)));
                    lemma_map_of_update(p, i as int, av);
                }
                return;
            }
            i += 1;
        }
        let ghost kv = key@;
        let ghost av = addrs@;
        self.pairs.push((key, addrs));
        proof {
            assert(pair_views(self.pairs@) =~= p.push((kv, av)));
            assert(pair_views(self.pairs@).drop_last() =~= p);
        }
    }
}

proof fn lemma_map_of_at(p: Seq<(Seq<char>, Seq<SocketAddress>)>, i: int)
    requires
        keys_unique(p),
        0 <= i < p.len(),
    ensures
        map_of(p).contains_key(p[i].0),
        map_of(p)[p[i].0] == p[i].1,
    decreases p.len(),
{
    let q = p.drop_last();
    if i < p.len() - 1 {
        assert(p[i].0 != p.last().0);
        assert(q[i] == p[i]);
        lemma_map_of_at(q, i);
    }
}

/// A host listed more than once takes the addresses of its last entry: the
/// entry at `i` decides the host's override when no later entry names the
/// same host.
pub proof fn lemma_last_entry_wins(p: Seq<(Seq<char>, Seq<SocketAddress>)>, i: int)
    requires
        0 <= i < p.len(),
        forall|j: int| i < j < p.len() ==> #[trigger] p[j].0 != p[i].0,
    ensures
        map_of(p).contains_key(p[i].0),
        map_of(p)[p[i].0] == p[i].1,
    decreases p.len(),
{
    let q = p.drop_last();
    if i < p.len() - 1 {
        assert(p[p.len() - 1].0 != p[i].0);
        assert(forall|j: int| i < j < q.len() ==> q[j] == p[j]);
        assert(q[i] == p[i]);
        lemma_last_entry_wins(q, i);
    }
}

/// A host that no entry names has no override.
pub proof fn lemma_unnamed_host_has_no_override(p: Seq<(Seq<char>, Seq<SocketAddress>)>, k: Seq<char>)
    requires
        forall|j: int| 0 <= j < p.len() ==> p[j].0 != k,
    ensures
        !map_of(p).contains_key(k),
    decreases p.len(),
{
    if p.len() > 0 {
        let q = p.drop_last();
        assert(forall|j: int| 0 <= j < q.len() ==> q[j] == p[j]);
        lemma_unnamed_host_has_no_override(q, k);
    }
}

proof fn lemma_map_of_update(p: Seq<(Seq<char>, Seq<SocketAddress>)>, i: int, v: Seq<SocketAddress>)
    requires
        keys_unique(p),
        0 <= i < p.len(),
    ensures
        keys_unique(p.update(i, (p[i].0, v))),
        map_of(p.update(i, (p[i].0, v))) == map_of(p).insert(p[i].0, v),
    decreases p.len(),
{
    let u = p.update(i, (p[i].0, v));
    let q = p.drop_last();
    assert(u.drop_last() =~= if i < p.len() - 1 {
        q.update(i, (p[i].0, v))
    } else {
        q
    });
    if i < p.len() - 1 {
        assert(q[i] == p[i]);
        lemma_map_of_update(q, i, v);
        assert(p[i].0 != p.last().0);
        assert(map_of(u) =~= map_of(p).insert(p[i].0, v));
    } else {
        assert(forall|j: int| 0 <= j < q.len() ==> q[j] == p[j]);
        lemma_unnamed_host_has_no_override(q, p[i].0);
        assert(map_of(u) =~= map_of(p).insert(p[i].0, v));
    }
}

pub open spec fn outcome_view(o: Result<SocketAddress, String>) -> Result<SocketAddress, Seq<char>> {
    match o {
        Ok(a) => Ok(a),
        Err(e) => Err(e@),
    }
}

pub open spec fn outcome_views(v: Seq<Result<SocketAddress, String>>) -> Seq<Result<SocketAddress, Seq<char>>> {
    v.map_values(|o: Result<SocketAddress, String>| outcome_view(o))
}

pub open spec fn outcome_lists(v: Seq<Vec<Result<SocketAddress, String>>>) -> Seq<Seq<Result<SocketAddress, Seq<char>>>> {
    v.map_values(|x: Vec<Result<SocketAddress, String>>| outcome_views(x@))
}

/// The first failed address parse of one entry, as its error message.
pub open spec fn entry_address_error(
    entry: Seq<char>,
    raw: Seq<Seq<char>>,
    outcomes: Seq<Result<SocketAddress, Seq<char>>>,
) -> Option<Seq<char>>
    decreases outcomes.len(),
{
    if outcomes.len() == 0 {
        None
    } else {
        match entry_address_error(entry, raw, outcomes.drop_last()) {
            Some(m) => Some(m),
            None => match outcomes.last() {
                Err(e) => Some(bad_address_message(entry, raw[outcomes.len() - 1], e)),
                Ok(_) => None,
            },
        }
    }
}

/// The addresses of one entry, when none failed to parse.
pub open spec fn entry_addresses(outcomes: Seq<Result<SocketAddress, Seq<char>>>) -> Seq<SocketAddress> {
    outcomes.map_values(|o: Result<SocketAddress, Seq<char>>| o->Ok_0)
}

/// The first failed address parse over all entries.
pub open spec fn first_address_error(
    entries: Seq<EntryView>,
    outcomes: Seq<Seq<Result<SocketAddress, Seq<char>>>>,
) -> Option<Seq<char>>
    decreases entries.len(),
{
    if entries.len() == 0 {
        None
    } else {
        match first_address_error(entries.drop_last(), outcomes) {
            Some(m) => Some(m),
            None => {
                let k = entries.len() - 1;
                entry_address_error(entries[k].0, entries[k].2, outcomes[k])
            },
        }
    }
}

/// The host key and addresses that each entry contributes.
pub open spec fn entry_pairs(
    entries: Seq<EntryView>,
    outcomes: Seq<Seq<Result<SocketAddress, Seq<char>>>>,
) -> Seq<(Seq<char>, Seq<SocketAddress>)> {
    Seq::new(entries.len(), |k: int| (entries[k].1, entry_addresses(outcomes[k])))
}

/// What the setting yields from its plan and the parse outcomes of the raw
/// addresses (one list per entry, one outcome per raw address): the first
/// failed address parse; otherwise the plan's shape error; otherwise the
/// map that inserting the entries in order builds.
pub open spec fn finish_spec(
    plan: (Seq<EntryView>, Option<Seq<char>>),
    outcomes: Seq<Seq<Result<SocketAddress, Seq<char>>>>,
) -> Result<Map<Seq<char>, Seq<SocketAddress>>, Seq<char>> {
    match first_address_error(plan.0, outcomes) {
        Some(m) => Err(m),
        None => match plan.1 {
            Some(f) => Err(f),
            None => Ok(map_of(entry_pairs(plan.0, outcomes))),
        },
    }
}

/// Outcomes that line up with the plan: one list per entry and one outcome
/// per raw address.
pub open spec fn outcomes_fit(plan: (Seq<EntryView>, Option<Seq<char>>), outcomes: Seq<Seq<Result<SocketAddress, Seq<char>>>>) -> bool {
    &&& outcomes.len() == plan.0.len()
    &&& forall|k: int| 0 <= k < outcomes.len() ==> #[trigger] outcomes[k].len() == plan.0[k].2.len()
}

pub open spec fn overrides_result_view(r: Result<HostOverrides, String>) -> Result<Map<Seq<char>, Seq<SocketAddress>>, Seq<char>> {
    match r {
        Ok(o) => Ok(o@),
        Err(e) => Err(e@),
    }
}

/// Builds the overrides from a plan and the parse outcomes of its raw
/// addresses.
pub fn finish_fetch_host_overrides(
    plan: OverridePlan,
    outcomes: &Vec<Vec<Result<SocketAddress, String>>>,
) -> (r: Result<HostOverrides, String>)
    requires
        outcomes_fit(plan@, outcome_lists(outcomes@)),
    ensures
        overrides_result_view(r) == finish_spec(plan@, outcome_lists(outcomes@)),
        r matches Ok(o) ==> o.wf(),
{
    let ghost ov = outcome_lists(outcomes@);
    let ghost ev = entry_views(plan.entries@);
    let mut map = HostOverrides::new();
    let mut k: usize = 0;
    while k < plan.entries.len()
        invariant
            k <= plan.entries.len(),
            outcomes.len() == plan.entries.len(),
            ov == outcome_lists(outcomes@),
            ev == entry_views(plan.entries@),
            outcomes_fit(plan@, ov),
            first_address_error(ev.take(k as int), ov) is None,
            map.wf(),
            map@ == map_of(entry_pairs(ev.take(k as int), ov)),
        decreases plan.entries.len() - k,
    {
        let entry = &plan.entries[k];
        let list = &outcomes[k];
        let ghost raw = ev[k as int].2;
        proof {
            assert(ev.take(k + 1).drop_last() =~= ev.take(k as int));
            assert(ov[k as int].len() == raw.len());
            assert(ov[k as int].len() == list.len());
        }
        let mut addrs: Vec<SocketAddress> = Vec::new();
        let mut j: usize = 0;
        while j < list.len()
            invariant
                j <= list.len(),
                k < outcomes.len(),
                list == outcomes@[k as int],
                ov[k as int] == outcome_views(list@),
                entry == plan.entries@[k as int],
                k < plan.entries.len(),
                ev == entry_views(plan.entries@),
                ov == outcome_lists(outcomes@),
                first_address_error(ev.take(k as int), ov) is None,
                ev.take(k + 1).drop_last() == ev.take(k as int),
                raw == entry.raw_addrs@.map_values(|s: String| s@),
                raw.len() == list.len(),
                entry_address_error(ev[k as int].0, raw, ov[k as int].take(j as int)) is None,
                addrs@ == entry_addresses(ov[k as int].take(j as int)),
            decreases list.len() - j,
        {
            proof {
                assert(ov[k as int].take(j + 1).drop_last() =~= ov[k as int].take(j as int));
            }
            match &list[j] {
                Ok(a) => {
                    addrs.push(*a);
                    proof {
                        assert(addrs@ =~= entry_addresses(ov[k as int].take(j + 1)));
                    }
                },
                Err(e) => {
                    let mut m = "FETCH_HOST_OVERRIDES entry ".to_owned();
                    let d = debug_text(entry.entry.as_str());
                    m.append(d.as_str());
                    m.append(" contains invalid socket address ");
                    let d2 = debug_text(entry.raw_addrs[j].as_str());
                    m.append(d2.as_str());
                    m.append(": ");
                    m.append(e.as_str());
                    proof {
                        assert(entry.raw_addrs@[j as int]@ == raw[j as int]);
                        assert(ov[k as int][j as int] == outcome_view(list@[j as int]));
                        assert(ov[k as int].take(j + 1).last() == Err::<SocketAddress, Seq<char>>(e@));
                        assert(ev[k as int].0 == entry.entry@);
                        assert(entry_address_error(ev[k as int].0, raw, ov[k as int].take(j + 1))
                            == Some(m@));
                        lemma_entry_error_prefix(ev[k as int].0, raw, ov[k as int], j as int + 1);
                        assert(first_address_error(ev.take(k + 1), ov) == Some(m@));
                        lemma_first_error_prefix(ev, ov, k as int + 1);
                    }
                    return Err(m);
                },
            }
            j += 1;
        }
        proof {
            assert(ov[k as int].take(list.len() as int) =~= ov[k as int]);
            assert(entry_pairs(ev.take(k + 1), ov).drop_last() =~= entry_pairs(ev.take(k as int), ov));
        }
        let host = entry.host.clone();
        map.insert(host, addrs);
        k += 1;
    }
    proof {
        assert(ev.take(plan.entries.len() as int) =~= ev);
    }
    match plan.failure {
        Some(f) => Err(f),
        None => Ok(map),
    }
}

proof fn lemma_entry_error_prefix(
    entry: Seq<char>,
    raw: Seq<Seq<char>>,
    outcomes: Seq<Result<SocketAddress, Seq<char>>>,
    j: int,
)
    requires
        0 <= j <= outcomes.len(),
        entry_address_error(entry, raw, outcomes.take(j)) is Some,
    ensures
        entry_address_error(entry, raw, outcomes) == entry_address_error(entry, raw, outcomes.take(j)),
    decreases outcomes.len() - j,
{
    if j < outcomes.len() {
        assert(outcomes.take(j + 1).drop_last() =~= outcomes.take(j));
        lemma_entry_error_prefix(entry, raw, outcomes, j + 1);
    } else {
        assert(outcomes.take(j) =~= outcomes);
    }
}

proof fn lemma_first_error_prefix(
    entries: Seq<EntryView>,
    outcomes: Seq<Seq<Result<SocketAddress, Seq<char>>>>,
    k: int,
)
    requires
        0 <= k <= entries.len(),
        first_address_error(entries.take(k), outcomes) is Some,
    ensures
        first_address_error(entries, outcomes) == first_address_error(entries.take(k), outcomes),
    decreases entries.len() - k,
{
    if k < entries.len() {
        assert(entries.take(k + 1).drop_last() =~= entries.take(k));
        lemma_first_error_prefix(entries, outcomes, k + 1);
    } else {
        assert(entries.take(k) =~= entries);
    }
}

/// When the setting is accepted, a host's override holds every address of
/// the host's last entry, in order: as many addresses as the entry lists,
/// the i-th being the i-th parsed address.
pub proof fn lemma_override_keeps_every_address(
    plan: (Seq<EntryView>, Option<Seq<char>>),
    outcomes: Seq<Seq<Result<SocketAddress, Seq<char>>>>,
    k: int,
)
    requires
        outcomes_fit(plan, outcomes),
        finish_spec(plan, outcomes) is Ok,
        0 <= k < plan.0.len(),
        forall|j: int| k < j < plan.0.len() ==> #[trigger] plan.0[j].1 != plan.0[k].1,
    ensures
        finish_spec(plan, outcomes)->Ok_0.contains_key(plan.0[k].1),
        finish_spec(plan, outcomes)->Ok_0[plan.0[k].1].len() == plan.0[k].2.len(),
        forall|i: int|
            0 <= i < plan.0[k].2.len() && #[trigger] outcomes[k][i] is Ok ==> finish_spec(plan, outcomes)->Ok_0[plan.0[k].1][i]
                == outcomes[k][i]->Ok_0,
{
    let pairs = entry_pairs(plan.0, outcomes);
    assert forall|j: int| k < j < pairs.len() implies #[trigger] pairs[j].0 != pairs[k].0 by {
        assert(plan.0[j].1 != plan.0[k].1);
    }
    lemma_last_entry_wins(pairs, k);
    assert(outcomes[k].len() == plan.0[k].2.len());
}

} // verus!

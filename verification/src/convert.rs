//! The conversion engine: one decoded page becomes a map from linked
//! chat-platform user ids to the entitlement codes granted.
//!
//! A member passes three guards in order — eligibility, identity resolution,
//! entitlement resolution — and every failure drops the member silently.
//! Entries are inserted in response order; when two members resolve to the
//! same chat id, the later member's entry wins.

use vstd::prelude::*;

use crate::catalog::{lemma_sku_set_contains, sku_set, Entitlement, EntitlementResolver};
use crate::models::{
    ChargeStatus, find_metadata, Member, MemberAttributes, MemberView, MetadataView,
    PatronStatus, PledgeResponse, ResponseView,
};

verus! {

/// A member passes the eligibility filter: an active patron whose last
/// charge is settled or in flight, holding at least one tier.
pub open spec fn eligible(m: MemberView) -> bool {
    &&& m.attributes.patron_status == Some(PatronStatus::ActivePatron)
    &&& (m.attributes.last_charge_status == Some(ChargeStatus::Paid)
        || m.attributes.last_charge_status == Some(ChargeStatus::Pending))
    &&& m.tier_ids.len() > 0
}

/// The union of the codes resolved for every tier id of the sequence.
pub open spec fn resolved_union<R: EntitlementResolver>(
    resolver: R,
    tier_ids: Seq<Seq<char>>,
    attrs: MemberAttributes,
) -> Set<Seq<char>>
    decreases tier_ids.len(),
{
    if tier_ids.len() == 0 {
        Set::empty()
    } else {
        resolved_union(resolver, tier_ids.drop_last(), attrs).union(
            resolver.resolve_spec(tier_ids.last(), attrs),
        )
    }
}

/// What one member contributes to the page's result: `None` when a guard
/// drops it, else the linked chat id and the member's flattened, non-empty
/// code set.
pub open spec fn member_entry<R: EntitlementResolver>(
    metas: Seq<MetadataView>,
    resolver: R,
    m: MemberView,
) -> Option<(Seq<char>, Set<Seq<char>>)> {
    if !eligible(m) {
        None
    } else {
        match find_metadata(metas, m.user_id) {
            None => None,
            Some(meta) => match meta.discord_user_id {
                None => None,
                Some(discord_id) => {
                    let codes = resolved_union(resolver, m.tier_ids, m.attributes);
                    if codes.is_empty() {
                        None
                    } else {
                        Some((discord_id, codes))
                    }
                },
            },
        }
    }
}

/// The result map of a member sequence: each member's entry inserted in
/// order, a later member overwriting an earlier one on the same chat id.
pub open spec fn convert_seq<R: EntitlementResolver>(
    members: Seq<MemberView>,
    metas: Seq<MetadataView>,
    resolver: R,
) -> Map<Seq<char>, Set<Seq<char>>>
    decreases members.len(),
{
    if members.len() == 0 {
        Map::empty()
    } else {
        let prev = convert_seq(members.drop_last(), metas, resolver);
        match member_entry(metas, resolver, members.last()) {
            None => prev,
            Some(e) => prev.insert(e.0, e.1),
        }
    }
}

/// The result map of one decoded page.
pub open spec fn spec_convert<R: EntitlementResolver>(
    resp: ResponseView,
    resolver: R,
) -> Map<Seq<char>, Set<Seq<char>>> {
    convert_seq(resp.members, resp.metadata, resolver)
}

/// Law: a member whose entry is `None` contributes nothing — the page
/// converts to the same map as the page with that member removed.
pub proof fn lemma_filtered_member_contributes_nothing<R: EntitlementResolver>(
    members: Seq<MemberView>,
    metas: Seq<MetadataView>,
    resolver: R,
    i: int,
)
    requires
        0 <= i < members.len(),
        member_entry(metas, resolver, members[i]) is None,
    ensures
        convert_seq(members, metas, resolver) == convert_seq(members.remove(i), metas, resolver),
    decreases members.len(),
{
    if i == members.len() - 1 {
        assert(members.remove(i) =~= members.drop_last());
    } else {
        lemma_filtered_member_contributes_nothing(members.drop_last(), metas, resolver, i);
        assert(members.drop_last()[i] == members[i]);
        assert(members.remove(i).drop_last() =~= members.drop_last().remove(i));
        assert(members.remove(i).last() == members.last());
    }
}

/// Law: a member who is not an active patron contributes no entry, whatever
/// its other fields hold.
pub proof fn lemma_inactive_patron_contributes_nothing<R: EntitlementResolver>(
    resp: ResponseView,
    resolver: R,
    i: int,
)
    requires
        0 <= i < resp.members.len(),
        resp.members[i].attributes.patron_status != Some(PatronStatus::ActivePatron),
    ensures
        member_entry(resp.metadata, resolver, resp.members[i]) is None,
        spec_convert(resp, resolver) == spec_convert(
            ResponseView { members: resp.members.remove(i), ..resp },
            resolver,
        ),
{
    lemma_filtered_member_contributes_nothing(resp.members, resp.metadata, resolver, i);
}

/// Law: a member whose last charge is neither paid nor pending contributes
/// no entry.
pub proof fn lemma_unsettled_charge_contributes_nothing<R: EntitlementResolver>(
    resp: ResponseView,
    resolver: R,
    i: int,
)
    requires
        0 <= i < resp.members.len(),
        resp.members[i].attributes.last_charge_status != Some(ChargeStatus::Paid),
        resp.members[i].attributes.last_charge_status != Some(ChargeStatus::Pending),
    ensures
        member_entry(resp.metadata, resolver, resp.members[i]) is None,
        spec_convert(resp, resolver) == spec_convert(
            ResponseView { members: resp.members.remove(i), ..resp },
            resolver,
        ),
{
    lemma_filtered_member_contributes_nothing(resp.members, resp.metadata, resolver, i);
}

/// Law: a member entitled to no tier contributes no entry.
pub proof fn lemma_tierless_member_contributes_nothing<R: EntitlementResolver>(
    resp: ResponseView,
    resolver: R,
    i: int,
)
    requires
        0 <= i < resp.members.len(),
        resp.members[i].tier_ids.len() == 0,
    ensures
        member_entry(resp.metadata, resolver, resp.members[i]) is None,
        spec_convert(resp, resolver) == spec_convert(
            ResponseView { members: resp.members.remove(i), ..resp },
            resolver,
        ),
{
    lemma_filtered_member_contributes_nothing(resp.members, resp.metadata, resolver, i);
}

/// Law: a member without a resolvable chat-platform identifier — no metadata
/// record for its user id, or a record without a linked chat id — contributes
/// no entry.
pub proof fn lemma_unlinked_member_contributes_nothing<R: EntitlementResolver>(
    resp: ResponseView,
    resolver: R,
    i: int,
)
    requires
        0 <= i < resp.members.len(),
        match find_metadata(resp.metadata, resp.members[i].user_id) {
            None => true,
            Some(meta) => meta.discord_user_id is None,
        },
    ensures
        member_entry(resp.metadata, resolver, resp.members[i]) is None,
        spec_convert(resp, resolver) == spec_convert(
            ResponseView { members: resp.members.remove(i), ..resp },
            resolver,
        ),
{
    lemma_filtered_member_contributes_nothing(resp.members, resp.metadata, resolver, i);
}

/// Law: the result never maps a key to an empty code set.
pub proof fn lemma_no_empty_code_set<R: EntitlementResolver>(
    resp: ResponseView,
    resolver: R,
    key: Seq<char>,
)
    requires
        spec_convert(resp, resolver).dom().contains(key),
    ensures
        !spec_convert(resp, resolver)[key].is_empty(),
{
    lemma_convert_seq_no_empty_code_set(resp.members, resp.metadata, resolver, key);
}

proof fn lemma_convert_seq_no_empty_code_set<R: EntitlementResolver>(
    members: Seq<MemberView>,
    metas: Seq<MetadataView>,
    resolver: R,
    key: Seq<char>,
)
    requires
        convert_seq(members, metas, resolver).dom().contains(key),
    ensures
        !convert_seq(members, metas, resolver)[key].is_empty(),
    decreases members.len(),
{
    if members.len() > 0 {
        match member_entry(metas, resolver, members.last()) {
            None => lemma_convert_seq_no_empty_code_set(members.drop_last(), metas, resolver, key),
            Some(e) => {
                if e.0 != key {
                    lemma_convert_seq_no_empty_code_set(
                        members.drop_last(),
                        metas,
                        resolver,
                        key,
                    );
                }
            },
        }
    }
}

/// Law: the conversion is deterministic — two results of converting the same
/// page with the same resolver are the same map. Each result of
/// [`PledgeResponse::convert`] equals `spec_convert` of the page's view, so
/// the two views coincide.
pub proof fn lemma_conversion_deterministic<R: EntitlementResolver>(
    resp: ResponseView,
    resolver: R,
    first: Map<Seq<char>, Set<Seq<char>>>,
    second: Map<Seq<char>, Set<Seq<char>>>,
)
    requires
        first == spec_convert(resp, resolver),
        second == spec_convert(resp, resolver),
    ensures
        first == second,
{
}

/// No two entitlements of the sequence name the same code.
pub open spec fn distinct_skus(s: Seq<Entitlement>) -> bool {
    forall|i: int, j: int| 0 <= i < j < s.len() ==> s[i].sku@ != s[j].sku@
}

/// The map denoted by key-value pairs read left to right, a later pair
/// overwriting an earlier one on the same key.
pub open spec fn entries_map(s: Seq<(String, Vec<Entitlement>)>) -> Map<Seq<char>, Set<Seq<char>>>
    decreases s.len(),
{
    if s.len() == 0 {
        Map::empty()
    } else {
        entries_map(s.drop_last()).insert(s.last().0@, sku_set(s.last().1@))
    }
}

/// The conversion result: linked chat-platform user id mapped to the set of
/// granted entitlement codes. Backed by pairs in insertion order; a later
/// pair for the same id shadows an earlier one, and lookups honour that.
pub struct EntitlementMap {
    entries: Vec<(String, Vec<Entitlement>)>,
}

impl View for EntitlementMap {
    type V = Map<Seq<char>, Set<Seq<char>>>;

    closed spec fn view(&self) -> Map<Seq<char>, Set<Seq<char>>> {
        entries_map(self.entries@)
    }
}

/// Concatenated pairs denote the map the left pairs denote, overwritten by
/// the map the right pairs denote.
proof fn lemma_entries_map_concat(a: Seq<(String, Vec<Entitlement>)>, b: Seq<(String, Vec<Entitlement>)>)
    ensures
        entries_map(a + b) == entries_map(a).union_prefer_right(entries_map(b)),
    decreases b.len(),
{
    if b.len() == 0 {
        assert(a + b =~= a);
        assert(entries_map(a).union_prefer_right(entries_map(b)) =~= entries_map(a));
    } else {
        lemma_entries_map_concat(a, b.drop_last());
        assert((a + b).drop_last() =~= a + b.drop_last());
        assert((a + b).last() == b.last());
        assert(entries_map(a).union_prefer_right(entries_map(b)) =~= entries_map(a)
            .union_prefer_right(entries_map(b.drop_last())).insert(
            b.last().0@,
            sku_set(b.last().1@),
        ));
    }
}

impl EntitlementMap {
    /// The empty result.
    pub fn new() -> (r: EntitlementMap)
        ensures
            r@ == Map::<Seq<char>, Set<Seq<char>>>::empty(),
    {
        EntitlementMap { entries: Vec::new() }
    }

    /// Merge a later page's result into this one. On a shared chat id the
    /// later page wins — the same last-write-wins policy the conversion
    /// applies within one page.
    pub fn merge(&mut self, newer: EntitlementMap)
        ensures
            final(self)@ == old(self)@.union_prefer_right(newer@),
    {
        let ghost a = self.entries@;
        let ghost b = newer.entries@;
        let mut tail = newer.entries;
        self.entries.append(&mut tail);
        proof {
            lemma_entries_map_concat(a, b);
        }
    }

    /// The pairs backing the map, in insertion order. Reading them left to
    /// right with a later pair overwriting an earlier one on the same key
    /// rebuilds the map.
    pub fn into_pairs(self) -> (r: Vec<(String, Vec<Entitlement>)>)
        ensures
            entries_map(r@) == self@,
    {
        self.entries
    }

    fn get_prefix<'a>(
        entries: &'a Vec<(String, Vec<Entitlement>)>,
        n: usize,
        key: &String,
    ) -> (r: Option<&'a Vec<Entitlement>>)
        requires
            n <= entries.len(),
        ensures
            match r {
                Some(v) => entries_map(entries@.subrange(0, n as int)).dom().contains(key@)
                    && entries_map(entries@.subrange(0, n as int))[key@] == sku_set(v@),
                None => !entries_map(entries@.subrange(0, n as int)).dom().contains(key@),
            },
        decreases n,
    {
        if n == 0 {
            proof {
                assert(entries@.subrange(0, 0) =~= Seq::<(String, Vec<Entitlement>)>::empty());
            }
            None
        } else {
            proof {
                assert(entries@.subrange(0, n as int).drop_last() =~= entries@.subrange(
                    0,
                    n as int - 1,
                ));
                assert(entries@.subrange(0, n as int).last() == entries@[n as int - 1]);
            }
            if entries[n - 1].0 == *key {
                Some(&entries[n - 1].1)
            } else {
                Self::get_prefix(entries, n - 1, key)
            }
        }
    }

    /// The codes granted to `key`: the last entry inserted for it, if any.
    pub fn get<'a>(&'a self, key: &String) -> (r: Option<&'a Vec<Entitlement>>)
        ensures
            match r {
                Some(v) => self@.dom().contains(key@) && self@[key@] == sku_set(v@),
                None => !self@.dom().contains(key@),
            },
    {
        proof {
            assert(self.entries@.subrange(0, self.entries@.len() as int) =~= self.entries@);
        }
        Self::get_prefix(&self.entries, self.entries.len(), key)
    }

    /// Whether `key` is granted anything.
    pub fn contains_key(&self, key: &String) -> (r: bool)
        ensures
            r == self@.dom().contains(key@),
    {
        match self.get(key) {
            Some(_) => true,
            None => false,
        }
    }

    /// Whether no key is granted anything.
    pub fn is_empty(&self) -> (r: bool)
        ensures
            r == (self@ == Map::<Seq<char>, Set<Seq<char>>>::empty()),
    {
        let r = self.entries.len() == 0;
        proof {
            if self.entries@.len() == 0 {
                assert(self@ =~= Map::<Seq<char>, Set<Seq<char>>>::empty());
            } else {
                assert(self@.dom().contains(self.entries@.last().0@));
            }
        }
        r
    }
}

/// Whether a member passes the eligibility filter.
fn is_eligible(member: &Member) -> (r: bool)
    ensures
        r == eligible(member@),
{
    let active = match member.attributes.patron_status {
        Some(PatronStatus::ActivePatron) => true,
        _ => false,
    };
    let charged = match member.attributes.last_charge_status {
        Some(ChargeStatus::Paid) => true,
        Some(ChargeStatus::Pending) => true,
        _ => false,
    };
    active && charged && member.relationships.currently_entitled_tiers.data.len() > 0
}

/// Whether some entitlement of `v` names `sku`.
fn contains_sku(v: &Vec<Entitlement>, sku: &String) -> (r: bool)
    ensures
        r == sku_set(v@).contains(sku@),
{
    let mut i: usize = 0;
    while i < v.len()
        invariant
            i <= v.len(),
            forall|j: int| 0 <= j < i ==> v@[j].sku@ != sku@,
        decreases v.len() - i,
    {
        if v[i].sku == *sku {
            proof {
                lemma_sku_set_contains(v@, sku@);
            }
            return true;
        }
        i += 1;
    }
    proof {
        lemma_sku_set_contains(v@, sku@);
    }
    false
}

/// Resolve every tier of the member and flatten the codes into one
/// duplicate-free sequence.
#[verifier::loop_isolation(false)]
fn collect_codes<R: EntitlementResolver>(member: &Member, resolver: &R) -> (r: Vec<Entitlement>)
    ensures
        sku_set(r@) == resolved_union(*resolver, member@.tier_ids, member@.attributes),
        distinct_skus(r@),
{
    let tiers = &member.relationships.currently_entitled_tiers.data;
    let ghost tier_ids = member@.tier_ids;
    let mut acc: Vec<Entitlement> = Vec::new();
    proof {
        assert(tier_ids.subrange(0, 0) =~= Seq::<Seq<char>>::empty());
    }
    let mut t: usize = 0;
    while t < tiers.len()
        invariant
            t <= tiers.len(),
            sku_set(acc@) == resolved_union(
                *resolver,
                tier_ids.subrange(0, t as int),
                member@.attributes,
            ),
            distinct_skus(acc@),
        decreases tiers.len() - t,
    {
        let resolved = resolver.resolve(&tiers[t].id, &member.attributes);
        let ghost before = tier_ids.subrange(0, t as int);
        let mut k: usize = 0;
        proof {
            assert(resolved@.subrange(0, 0) =~= Seq::<Entitlement>::empty());
            assert(sku_set(acc@).union(sku_set(resolved@.subrange(0, 0))) =~= sku_set(acc@));
        }
        while k < resolved.len()
            invariant
                k <= resolved.len(),
                sku_set(acc@) == resolved_union(*resolver, before, member@.attributes).union(
                    sku_set(resolved@.subrange(0, k as int)),
                ),
                distinct_skus(acc@),
            decreases resolved.len() - k,
        {
            let ghost prev = acc@;
            proof {
                assert(resolved@.subrange(0, k as int + 1).drop_last() =~= resolved@.subrange(
                    0,
                    k as int,
                ));
                assert(resolved@.subrange(0, k as int + 1).last() == resolved@[k as int]);
            }
            if contains_sku(&acc, &resolved[k].sku) {
                proof {
                    assert(resolved_union(*resolver, before, member@.attributes).union(
                        sku_set(resolved@.subrange(0, k as int + 1)),
                    ) =~= sku_set(acc@));
                }
            } else {
                acc.push(Entitlement { sku: resolved[k].sku.clone() });
                proof {
                    assert(acc@.drop_last() =~= prev);
                    assert(resolved_union(*resolver, before, member@.attributes).union(
                        sku_set(resolved@.subrange(0, k as int + 1)),
                    ) =~= sku_set(acc@));
                    lemma_sku_set_contains(prev, resolved@[k as int].sku@);
                    assert forall|x: int, y: int| 0 <= x < y < acc@.len() implies acc@[x].sku@
                        != acc@[y].sku@ by {
                        if y < acc@.len() - 1 {
                            assert(prev[x].sku@ != prev[y].sku@);
                        }
                    }
                }
            }
            k += 1;
        }
        proof {
            assert(resolved@.subrange(0, resolved@.len() as int) =~= resolved@);
            assert(tier_ids.subrange(0, t as int + 1).drop_last() =~= before);
            assert(tier_ids.subrange(0, t as int + 1).last() == tier_ids[t as int]);
            assert(tier_ids[t as int] == tiers@[t as int].id@);
        }
        t += 1;
    }
    proof {
        assert(tier_ids.subrange(0, tiers@.len() as int) =~= tier_ids);
    }
    acc
}

impl PledgeResponse {
    /// What one member contributes to this page's result: the linked chat id
    /// and the member's duplicate-free entitlements, or `None` when a guard
    /// drops the member.
    fn page_entry<R: EntitlementResolver>(&self, member: &Member, resolver: &R) -> (r: Option<
        (String, Vec<Entitlement>),
    >)
        ensures
            match r {
                Some(p) => member_entry(self@.metadata, *resolver, member@) == Some(
                    (p.0@, sku_set(p.1@)),
                ) && distinct_skus(p.1@),
                None => member_entry(self@.metadata, *resolver, member@) is None,
            },
    {
        if !is_eligible(member) {
            return None;
        }
        let meta = match self.get_meta_by_id(&member.relationships.user.data.id) {
            Some(m) => m,
            None => {
                return None;
            },
        };
        let discord_id: String = match &meta.attributes.social_connections {
            Some(sc) => match &sc.discord {
                Some(d) => match &d.user_id {
                    Some(u) => u.clone(),
                    None => {
                        return None;
                    },
                },
                None => {
                    return None;
                },
            },
            None => {
                return None;
            },
        };
        let codes = collect_codes(member, resolver);
        if codes.len() == 0 {
            return None;
        }
        proof {
            assert(sku_set(codes@).contains(codes@.last().sku@));
        }
        Some((discord_id, codes))
    }

    /// Convert one decoded page into the map from linked chat-platform user
    /// ids to granted entitlement codes. Every anomaly — ineligible member,
    /// missing metadata, unlinked chat account, nothing resolved — drops the
    /// member silently; a later member overwrites an earlier one on the same
    /// chat id.
    pub fn convert<R: EntitlementResolver>(&self, resolver: &R) -> (r: EntitlementMap)
        ensures
            r@ == spec_convert(self@, *resolver),
    {
        let mut entries: Vec<(String, Vec<Entitlement>)> = Vec::new();
        proof {
            assert(self@.members.subrange(0, 0) =~= Seq::<MemberView>::empty());
        }
        let mut i: usize = 0;
        while i < self.data.len()
            invariant
                i <= self.data.len(),
                entries_map(entries@) == convert_seq(
                    self@.members.subrange(0, i as int),
                    self@.metadata,
                    *resolver,
                ),
            decreases self.data.len() - i,
        {
            let ghost prev = entries@;
            match self.page_entry(&self.data[i], resolver) {
                Some(p) => {
                    entries.push(p);
                    proof {
                        assert(entries@.drop_last() =~= prev);
                    }
                },
                None => {},
            }
            proof {
                assert(self@.members.subrange(0, i as int + 1).drop_last() =~= self@.members
                    .subrange(0, i as int));
                assert(self@.members.subrange(0, i as int + 1).last() == self@.members[i as int]);
            }
            i += 1;
        }
        proof {
            assert(self@.members.subrange(0, self.data@.len() as int) =~= self@.members);
        }
        EntitlementMap { entries }
    }
}

} // verus!

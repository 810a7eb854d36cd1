//! The decoded shape of one page of membership data: members, their linked
//! user records and currently entitled tiers, and a side table of patron
//! metadata carrying linked chat-platform accounts.

use vstd::prelude::*;

verus! {

/// Outcome of the most recent charge attempt on a member's pledge.
#[derive(Debug, Clone, Copy, PartialEq, Eq)]
pub enum ChargeStatus {
    Paid,
    Declined,
    Deleted,
    Pending,
    Refunded,
    Fraud,
    Other,
}

/// Standing of a member's pledge.
#[derive(Debug, Clone, Copy, PartialEq, Eq)]
pub enum PatronStatus {
    ActivePatron,
    FormerPatron,
    DeclinedPatron,
}

/// Billing attributes of one member. Dates are seconds since the Unix epoch;
/// a `None` patron status means the member never pledged.
#[derive(Debug, Clone, Copy)]
pub struct MemberAttributes {
    pub last_charge_date: Option<i64>,
    pub last_charge_status: Option<ChargeStatus>,
    pub next_charge_date: Option<i64>,
    pub pledge_cadence: Option<u16>,
    pub patron_status: Option<PatronStatus>,
}

/// Identifier of the user record a member is linked to.
#[derive(Debug, Clone)]
pub struct UserData {
    pub id: String,
}

/// The user relationship of a member.
#[derive(Debug, Clone)]
pub struct User {
    pub data: UserData,
}

/// One tier a member is currently entitled to.
#[derive(Debug, Clone)]
pub struct EntitledTier {
    pub id: String,
}

/// The tiers a member is currently entitled to, in response order.
#[derive(Debug, Clone)]
pub struct EntitledTiers {
    pub data: Vec<EntitledTier>,
}

/// A member's relationships: its linked user and its entitled tiers.
#[derive(Debug, Clone)]
pub struct Relationships {
    pub user: User,
    pub currently_entitled_tiers: EntitledTiers,
}

/// One subscription record.
#[derive(Debug, Clone)]
pub struct Member {
    pub attributes: MemberAttributes,
    pub relationships: Relationships,
}

/// A linked chat-platform account, when the patron linked one.
#[derive(Debug, Clone)]
pub struct DiscordConnection {
    pub user_id: Option<String>,
}

/// The social accounts a patron linked.
#[derive(Debug, Clone)]
pub struct SocialConnections {
    pub discord: Option<DiscordConnection>,
}

/// Attributes of one patron metadata record.
#[derive(Debug, Clone)]
pub struct PatronAttributes {
    pub social_connections: Option<SocialConnections>,
}

/// One record of the side table, keyed by id.
#[derive(Debug, Clone)]
pub struct PatronMetadata {
    pub id: String,
    pub attributes: PatronAttributes,
}

/// Pagination links of the page; ignored by the conversion.
#[derive(Debug, Clone)]
pub struct Links {
    pub next: Option<String>,
}

/// One decoded page of membership data.
#[derive(Debug, Clone)]
pub struct PledgeResponse {
    pub data: Vec<Member>,
    pub included: Vec<PatronMetadata>,
    pub links: Option<Links>,
}

/// One member, reduced to the fields the conversion reads.
pub ghost struct MemberView {
    pub attributes: MemberAttributes,
    pub user_id: Seq<char>,
    pub tier_ids: Seq<Seq<char>>,
}

impl View for Member {
    type V = MemberView;

    open spec fn view(&self) -> MemberView {
        MemberView {
            attributes: self.attributes,
            user_id: self.relationships.user.data.id@,
            tier_ids: self.relationships.currently_entitled_tiers.data@.map_values(
                |t: EntitledTier| t.id@,
            ),
        }
    }
}

/// The chat-platform user id a metadata record links to, if every link of
/// the chain (social connections, chat account, its id) is present.
pub open spec fn spec_discord_user_id(m: PatronMetadata) -> Option<Seq<char>> {
    match m.attributes.social_connections {
        Some(sc) => match sc.discord {
            Some(d) => match d.user_id {
                Some(u) => Some(u@),
                None => None,
            },
            None => None,
        },
        None => None,
    }
}

/// One metadata record, reduced to its id and its linked chat id.
pub ghost struct MetadataView {
    pub id: Seq<char>,
    pub discord_user_id: Option<Seq<char>>,
}

impl View for PatronMetadata {
    type V = MetadataView;

    open spec fn view(&self) -> MetadataView {
        MetadataView { id: self.id@, discord_user_id: spec_discord_user_id(*self) }
    }
}

/// One decoded page, reduced to its members and its metadata side table.
pub ghost struct ResponseView {
    pub members: Seq<MemberView>,
    pub metadata: Seq<MetadataView>,
}

impl View for PledgeResponse {
    type V = ResponseView;

    open spec fn view(&self) -> ResponseView {
        ResponseView {
            members: self.data@.map_values(|m: Member| m@),
            metadata: self.included@.map_values(|p: PatronMetadata| p@),
        }
    }
}

/// The first metadata record whose id is `id`, if any. Ids are unique within
/// a page, so at most one record matches.
pub open spec fn find_metadata(metas: Seq<MetadataView>, id: Seq<char>) -> Option<MetadataView>
    decreases metas.len(),
{
    if metas.len() == 0 {
        None
    } else if metas[0].id == id {
        Some(metas[0])
    } else {
        find_metadata(metas.drop_first(), id)
    }
}

impl PledgeResponse {
    /// Look up the metadata record for one member's user id; absence is a
    /// normal state, not an error.
    pub fn get_meta_by_id<'a>(&'a self, id: &String) -> (r: Option<&'a PatronMetadata>)
        ensures
            match r {
                Some(m) => find_metadata(self@.metadata, id@) == Some(m@),
                None => find_metadata(self@.metadata, id@) is None,
            },
    {
        let mut i: usize = 0;
        proof {
            assert(self@.metadata.skip(0) =~= self@.metadata);
        }
        while i < self.included.len()
            invariant
                i <= self.included.len(),
                find_metadata(self@.metadata, id@) == find_metadata(
                    self@.metadata.skip(i as int),
                    id@,
                ),
            decreases self.included.len() - i,
        {
            if self.included[i].id == *id {
                assert(self@.metadata.skip(i as int)[0] == self@.metadata[i as int]);
                return Some(&self.included[i]);
            }
            assert(self@.metadata.skip(i as int).drop_first() =~= self@.metadata.skip(
                i as int + 1,
            ));
            i += 1;
        }
        None
    }
}

} // verus!

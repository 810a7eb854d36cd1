//! Entitlement codes and their resolution. Which codes a tier grants under
//! given charge attributes is decided by an injected resolver; the library
//! ships one backed by a fixed table.

use vstd::prelude::*;

use crate::models::MemberAttributes;

verus! {

/// One granted entitlement: an opaque stock-keeping code.
#[derive(Debug, Clone, PartialEq, Eq)]
pub struct Entitlement {
    pub sku: String,
}

/// The set of codes named by a sequence of entitlements.
pub open spec fn sku_set(s: Seq<Entitlement>) -> Set<Seq<char>>
    decreases s.len(),
{
    if s.len() == 0 {
        Set::empty()
    } else {
        sku_set(s.drop_last()).insert(s.last().sku@)
    }
}

/// A code is in the set exactly when some entitlement of the sequence names it.
pub proof fn lemma_sku_set_contains(s: Seq<Entitlement>, code: Seq<char>)
    ensures
        sku_set(s).contains(code) <==> exists|j: int| 0 <= j < s.len() && s[j].sku@ == code,
    decreases s.len(),
{
    if s.len() > 0 {
        lemma_sku_set_contains(s.drop_last(), code);
        if sku_set(s).contains(code) {
            if s.last().sku@ == code {
                assert(s[s.len() - 1].sku@ == code);
            } else {
                let j = choose|j: int| 0 <= j < s.drop_last().len() && s.drop_last()[j].sku@
                    == code;
                assert(s[j].sku@ == code);
            }
        }
        if exists|j: int| 0 <= j < s.len() && s[j].sku@ == code {
            let j = choose|j: int| 0 <= j < s.len() && s[j].sku@ == code;
            if j < s.len() - 1 {
                assert(s.drop_last()[j].sku@ == code);
            }
        }
    }
}

/// Supplies the entitlement codes granted for one tier under given charge
/// attributes. The production catalog lives outside this library; the
/// conversion takes any resolver and is verified against this contract.
pub trait EntitlementResolver {
    /// The set of codes granted for `tier_id` under `attrs`.
    spec fn resolve_spec(&self, tier_id: Seq<char>, attrs: MemberAttributes) -> Set<Seq<char>>;

    /// Produce the codes for one tier. Total: an unknown tier id yields an
    /// empty result, never an error.
    fn resolve(&self, tier_id: &String, attrs: &MemberAttributes) -> (r: Vec<Entitlement>)
        ensures
            sku_set(r@) == self.resolve_spec(tier_id@, *attrs),
    ;
}

/// The set of codes named by a sequence of code strings.
pub open spec fn code_set(codes: Seq<String>) -> Set<Seq<char>>
    decreases codes.len(),
{
    if codes.len() == 0 {
        Set::empty()
    } else {
        code_set(codes.drop_last()).insert(codes.last()@)
    }
}

/// The codes of the first row whose tier id is `tier_id`; empty when no row
/// matches.
pub open spec fn catalog_lookup(rows: Seq<(String, Vec<String>)>, tier_id: Seq<char>) -> Set<
    Seq<char>,
>
    decreases rows.len(),
{
    if rows.len() == 0 {
        Set::empty()
    } else if rows[0].0@ == tier_id {
        code_set(rows[0].1@)
    } else {
        catalog_lookup(rows.drop_first(), tier_id)
    }
}

/// A resolver backed by a fixed tier-to-codes table: the first row matching
/// a tier id decides, and the charge attributes play no part.
#[derive(Debug, Clone)]
pub struct TierCatalog {
    pub rows: Vec<(String, Vec<String>)>,
}

impl EntitlementResolver for TierCatalog {
    open spec fn resolve_spec(&self, tier_id: Seq<char>, attrs: MemberAttributes) -> Set<
        Seq<char>,
    > {
        catalog_lookup(self.rows@, tier_id)
    }

    fn resolve(&self, tier_id: &String, attrs: &MemberAttributes) -> (r: Vec<Entitlement>) {
        let mut i: usize = 0;
        proof {
            assert(self.rows@.skip(0) =~= self.rows@);
        }
        while i < self.rows.len()
            invariant
                i <= self.rows.len(),
                catalog_lookup(self.rows@, tier_id@) == catalog_lookup(
                    self.rows@.skip(i as int),
                    tier_id@,
                ),
            decreases self.rows.len() - i,
        {
            assert(self.rows@.skip(i as int)[0] == self.rows@[i as int]);
            if self.rows[i].0 == *tier_id {
                let codes = &self.rows[i].1;
                let mut out: Vec<Entitlement> = Vec::new();
                let mut j: usize = 0;
                while j < codes.len()
                    invariant
                        j <= codes.len(),
                        sku_set(out@) == code_set(codes@.subrange(0, j as int)),
                    decreases codes.len() - j,
                {
                    let ghost prev = out@;
                    out.push(Entitlement { sku: codes[j].clone() });
                    proof {
                        assert(out@.drop_last() =~= prev);
                        assert(codes@.subrange(0, j as int + 1).drop_last() =~= codes@.subrange(
                            0,
                            j as int,
                        ));
                    }
                    j += 1;
                }
                proof {
                    assert(codes@.subrange(0, codes@.len() as int) =~= codes@);
                }
                return out;
            }
            assert(self.rows@.skip(i as int).drop_first() =~= self.rows@.skip(i as int + 1));
            i += 1;
        }
        let out: Vec<Entitlement> = Vec::new();
        proof {
            assert(sku_set(out@) =~= catalog_lookup(
                self.rows@.skip(self.rows@.len() as int),
                tier_id@,
            ));
        }
        out
    }
}

} // verus!

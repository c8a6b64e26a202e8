use crate::ip_range::cidr_contains;
use crate::ip_range::cidr_parse;
use crate::ip_range::parsed_range;
use crate::ip_range::Cidr;
use crate::ip_range::IpRange;
use crate::text::split;
use crate::text::split_on;
use crate::text::str_equal;
use crate::text::texts;
use vstd::prelude::*;

verus! {

/// The order in which the allow list and the deny list are consulted.
#[derive(Clone, Copy, Debug, PartialEq, Eq, Structural)]
pub enum AccessOrder {
    /// Permitted unless denied; an allow entry overrides a deny entry.
    DenyAllow,
    /// Rejected unless allowed; a deny entry overrides an allow entry.
    AllowDeny,
    /// Permitted only if allowed and not denied.
    MutualFailure,
}

/// The order that a setting's text names. Any text other than the three
/// known ones means `DenyAllow`.
pub open spec fn order_of(ordering: Seq<char>) -> AccessOrder {
    if ordering == "allow,deny"@ {
        AccessOrder::AllowDeny
    } else if ordering == "mutual-failure"@ {
        AccessOrder::MutualFailure
    } else {
        AccessOrder::DenyAllow
    }
}

impl AccessOrder {
    /// Reads an order from `deny,allow`, `allow,deny` or `mutual-failure`;
    /// any other text gives `DenyAllow`.
    pub fn from_str(ordering: &str) -> (order: AccessOrder)
        ensures
            order == order_of(ordering@),
    {
        if str_equal(ordering, "deny,allow") {
            proof {
                reveal_strlit("deny,allow");
                reveal_strlit("allow,deny");
                reveal_strlit("mutual-failure");
                assert("deny,allow"@[0] != "allow,deny"@[0]);
                assert("deny,allow"@.len() != "mutual-failure"@.len());
            }
            AccessOrder::DenyAllow
        } else if str_equal(ordering, "allow,deny") {
            AccessOrder::AllowDeny
        } else if str_equal(ordering, "mutual-failure") {
            AccessOrder::MutualFailure
        } else {
            AccessOrder::DenyAllow
        }
    }
}

/// The views of a list of ranges.
pub open spec fn cidrs(ranges: Seq<IpRange>) -> Seq<Cidr> {
    ranges.map_values(|r: IpRange| r@)
}

/// Whether some range of the list holds `addr`. An empty list holds nothing.
pub open spec fn in_list(ranges: Seq<Cidr>, addr: u32) -> bool {
    exists|i: int| 0 <= i < ranges.len() && cidr_contains(#[trigger] ranges[i], addr)
}

/// Whether an address is permitted under an order and two lists.
pub open spec fn permits(order: AccessOrder, allow: Seq<Cidr>, deny: Seq<Cidr>, addr: u32) -> bool {
    match order {
        AccessOrder::DenyAllow => !in_list(deny, addr) || in_list(allow, addr),
        AccessOrder::AllowDeny => in_list(allow, addr) && !in_list(deny, addr),
        AccessOrder::MutualFailure => in_list(allow, addr) && !in_list(deny, addr),
    }
}

/// Under `DenyAllow` an empty deny list permits every address, whatever the
/// allow list holds.
pub proof fn lemma_deny_allow_empty_deny(allow: Seq<Cidr>, addr: u32)
    ensures
        permits(AccessOrder::DenyAllow, allow, Seq::empty(), addr),
{
}

/// Under `AllowDeny` an empty allow list rejects every address, whatever the
/// deny list holds.
pub proof fn lemma_allow_deny_empty_allow(deny: Seq<Cidr>, addr: u32)
    ensures
        !permits(AccessOrder::AllowDeny, Seq::empty(), deny, addr),
{
}

/// Under `MutualFailure` an address is permitted exactly when an allow entry
/// holds it and no deny entry does.
pub proof fn lemma_mutual_failure(allow: Seq<Cidr>, deny: Seq<Cidr>, addr: u32)
    ensures
        permits(AccessOrder::MutualFailure, allow, deny, addr) <==> (in_list(allow, addr)
            && !in_list(deny, addr)),
{
}

/// An order and the two lists it applies to.
pub struct AccessPolicy {
    pub order: AccessOrder,
    pub allow: Vec<IpRange>,
    pub deny: Vec<IpRange>,
}

/// An access policy as plain values.
pub struct AccessPolicyModel {
    pub order: AccessOrder,
    pub allow: Seq<Cidr>,
    pub deny: Seq<Cidr>,
}

impl View for AccessPolicy {
    type V = AccessPolicyModel;

    open spec fn view(&self) -> AccessPolicyModel {
        AccessPolicyModel {
            order: self.order,
            allow: cidrs(self.allow@),
            deny: cidrs(self.deny@),
        }
    }
}

/// Whether some range of `ranges` holds `addr`.
pub fn matches_any(ranges: &Vec<IpRange>, addr: u32) -> (found: bool)
    ensures
        found == in_list(cidrs(ranges@), addr),
{
    let mut i: usize = 0;
    while i < ranges.len()
        invariant
            i <= ranges.len(),
            forall|j: int| 0 <= j < i ==> !cidr_contains(#[trigger] cidrs(ranges@)[j], addr),
        decreases ranges.len() - i,
    {
        if ranges[i].contains(addr) {
            assert(cidr_contains(cidrs(ranges@)[i as int], addr));
            return true;
        }
        i += 1;
    }
    false
}

/// Decides whether `addr` is permitted under `policy`.
pub fn evaluate(policy: &AccessPolicy, addr: u32) -> (permitted: bool)
    ensures
        permitted == permits(policy@.order, policy@.allow, policy@.deny, addr),
{
    let allowed = matches_any(&policy.allow, addr);
    let denied = matches_any(&policy.deny, addr);
    match policy.order {
        AccessOrder::DenyAllow => !denied || allowed,
        AccessOrder::AllowDeny => allowed && !denied,
        AccessOrder::MutualFailure => allowed && !denied,
    }
}

/// The word that stands for the range of every address.
pub open spec fn all_token() -> Seq<char> {
    seq!['a', 'l', 'l']
}

/// The range that one token of an access list names: every address for
/// `all`, else what the token reads as in CIDR notation.
pub open spec fn token_range(token: Seq<char>) -> Option<Cidr> {
    if token == all_token() {
        Some(Cidr { addr: 0, prefix: 0 })
    } else {
        parsed_range(cidr_parse(token))
    }
}

/// What one piece of a comma-separated list adds to the list: nothing where
/// the piece is empty or names no range.
pub open spec fn list_entry(piece: Seq<char>) -> Option<Cidr> {
    if piece.len() == 0 {
        None
    } else {
        token_range(piece)
    }
}

/// The ranges that a comma-separated list names, in the order of the list.
pub open spec fn access_list(csv: Seq<char>) -> Seq<Cidr> {
    split_on(csv, ',').filter_map(|piece: Seq<char>| list_entry(piece))
}

/// The view of a range that may be absent.
pub open spec fn range_view(range: Option<IpRange>) -> Option<Cidr> {
    match range {
        Some(r) => Some(r@),
        None => None,
    }
}

/// Reads one token of an access list: `all`, or a range in CIDR notation.
/// `None` where the token names no range.
pub fn access_ipmask(s: &str) -> (range: Option<IpRange>)
    ensures
        range_view(range) == token_range(s@),
{
    proof {
        reveal_strlit("all");
        assert("all"@ == all_token());
    }
    if str_equal(s, "all") {
        Some(IpRange::all())
    } else {
        IpRange::parse(s)
    }
}

/// Reads a comma-separated access list. Empty pieces and pieces that name no
/// range are left out; the others keep their order.
pub fn load_access_list(access_list: &str) -> (ranges: Vec<IpRange>)
    ensures
        cidrs(ranges@) == self::access_list(access_list@),
{
    let pieces = split(access_list, ',');
    let ghost entry = |piece: Seq<char>| list_entry(piece);
    let ghost all = texts(pieces@);
    let mut ranges: Vec<IpRange> = Vec::new();
    let mut i: usize = 0;
    proof {
        assert(all.take(0) == Seq::<Seq<char>>::empty());
        assert(cidrs(ranges@) == all.take(0).filter_map(entry));
    }
    while i < pieces.len()
        invariant
            i <= pieces.len(),
            all == texts(pieces@),
            entry == |piece: Seq<char>| list_entry(piece),
            cidrs(ranges@) == all.take(i as int).filter_map(entry),
        decreases pieces.len() - i,
    {
        let piece = pieces[i].as_str();
        proof {
            all.lemma_filter_map_take_succ(entry, i as int);
            assert(all[i as int] == piece@);
        }
        if !piece.is_empty() {
            match access_ipmask(piece) {
                Some(range) => {
                    proof {
                        assert(cidrs(ranges@.push(range)) == cidrs(ranges@).push(range@));
                    }
                    ranges.push(range);
                },
                None => {},
            }
        }
        i += 1;
    }
    proof {
        assert(all.take(pieces.len() as int) == all);
    }
    ranges
}

/// The pieces of a comma-separated list that name no range though they are
/// not empty: what a reader of the list leaves out and may want to report.
pub open spec fn rejected_pieces(csv: Seq<char>) -> Seq<Seq<char>> {
    split_on(csv, ',').filter(|piece: Seq<char>| piece.len() > 0 && token_range(piece) is None)
}

/// The pieces of an access list that `load_access_list` leaves out because
/// they name no range, in the order of the list.
pub fn rejected_tokens(access_list: &str) -> (rejected: Vec<String>)
    ensures
        texts(rejected@) == rejected_pieces(access_list@),
{
    let pieces = split(access_list, ',');
    let ghost bad = |piece: Seq<char>| piece.len() > 0 && token_range(piece) is None;
    let ghost all = texts(pieces@);
    let mut rejected: Vec<String> = Vec::new();
    let mut i: usize = 0;
    proof {
        reveal(Seq::filter);
        assert(all.take(0) == Seq::<Seq<char>>::empty());
        assert(texts(rejected@) == all.take(0).filter(bad));
    }
    while i < pieces.len()
        invariant
            i <= pieces.len(),
            all == texts(pieces@),
            bad == |piece: Seq<char>| piece.len() > 0 && token_range(piece) is None,
            texts(rejected@) == all.take(i as int).filter(bad),
        decreases pieces.len() - i,
    {
        let piece = pieces[i].as_str();
        proof {
            assert(all.take(i + 1) == all.take(i as int).push(piece@));
            all.take(i as int).lemma_filter_push(piece@, bad);
        }
        if !piece.is_empty() && access_ipmask(piece).is_none() {
            let owned = piece.to_owned();
            proof {
                assert(texts(rejected@.push(owned)) == texts(rejected@).push(piece@));
            }
            rejected.push(owned);
        }
        i += 1;
    }
    proof {
        assert(all.take(pieces.len() as int) == all);
    }
    rejected
}

} // verus!

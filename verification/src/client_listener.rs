//! Decisions of a central server on the requests of its clients: which
//! requests the node answers itself, where it redirects them, which writes
//! it replicates, and which transactions a query selects.

use crate::bytes::{AccountId, CardId, TimeStamp, FAILURE, SUCCESS};
use crate::election::ring_election::{find_node, RingElectionNode};
use crate::messages::data_response::DataResponseMessage;
use crate::messages::probe_response::{ProbeResponse, PROBE};
use crate::messages::protocol::REGISTER_REGIONAL;
use crate::messages::query_data::{QueryDataMessage, QUERY};
use crate::messages::register_account::REG_ACCOUNT;
use crate::messages::register_card::REG_CARD;
use crate::messages::remove_regions::UPD_REMOVE_REGIONS;
use crate::messages::update_data::{UPD_ACCOUNT_LIMIT, UPD_ACCOUNT_NAME, UPD_CARD};
use crate::messages::data_response::DataResponseView;
use crate::messages::update_regions::{region_pairs, UpdateRegionsMessage, UPD_REGIONS};
use crate::fmt::string_append;
use crate::regional_registry::{
    find_region, is_alphanumeric_char, region_name_char, RegionView, RegionalRegistry, RegistryView,
};
use crate::text::{same_text, starts_with_text};
use rayon::iter::{IntoParallelRefIterator, ParallelIterator};
use vstd::prelude::*;
use vstd::string::StrSliceExecFns;
use vstd::utf8::encode_utf8;

verus! {

/// The operations that change accounts, which the leader replicates.
pub open spec fn is_write_operation(code: u8) -> bool {
    code == REG_ACCOUNT || code == REG_CARD || code == UPD_ACCOUNT_LIMIT || code == UPD_CARD
        || code == UPD_ACCOUNT_NAME || code == UPD_REGIONS || code == UPD_REMOVE_REGIONS
}

/// Whether an operation must be replicated to the other central servers.
pub fn should_replicate(code: u8) -> (r: bool)
    ensures
        r == is_write_operation(code),
{
    code == REG_ACCOUNT || code == REG_CARD || code == UPD_ACCOUNT_LIMIT || code == UPD_CARD
        || code == UPD_ACCOUNT_NAME || code == UPD_REGIONS || code == UPD_REMOVE_REGIONS
}

/// A username: 3 to 30 bytes of UTF-8, made of alphanumeric characters,
/// `_` and `-`, not starting with `-`.
pub open spec fn valid_username(name: Seq<char>) -> bool {
    &&& 3 <= encode_utf8(name).len() <= 30
    &&& forall|i: int| 0 <= i < name.len() ==> region_name_char(#[trigger] name[i])
    &&& !(name.len() > 0 && name[0] == '-')
}

/// Whether `username` is a valid username.
pub fn is_valid_username(username: &str) -> (r: bool)
    ensures
        r == valid_username(username@),
{
    let bytes = username.as_bytes().len();
    if bytes < 3 || bytes > 30 {
        return false;
    }
    let n = username.unicode_len();
    let mut i: usize = 0;
    while i < n
        invariant
            i <= n,
            n == username@.len(),
            forall|k: int| 0 <= k < i ==> region_name_char(#[trigger] username@[k]),
        decreases n - i,
    {
        let c = username.get_char(i);
        if !(crate::regional_registry::is_valid_region_name_char(c)) {
            assert(!region_name_char(username@[i as int]));
            return false;
        }
        i = i + 1;
    }
    let dash = starts_with_text(username, "-");
    proof {
        reveal_strlit("-");
        if n > 0 {
            assert(dash <==> username@[0] == '-') by {
                assert("-"@ =~= seq!['-']);
                if username@[0] == '-' {
                    assert(username@.subrange(0, 1) =~= seq!['-']);
                }
                if dash {
                    assert(username@.subrange(0, 1)[0] == username@[0]);
                }
            }
        }
    }
    !dash
}

/// The answer to an operation code that no handler knows.
pub fn unknown_command(code: u8) -> (r: DataResponseMessage)
    ensures
        r@ == (code, FAILURE, 0u64, None::<Seq<u8>>),
{
    DataResponseMessage::new(code, FAILURE, 0, None)
}

/// The client address a follower redirects to when the leader's is unknown.
pub open spec fn fallback_leader_addr() -> Seq<char> {
    "127.0.0.1:9000"@
}

/// What a follower answers to an operation: failure, the leader's id, and
/// the leader's client address as payload.
pub fn redirect_response(code: u8, leader_id: u8, leader_addr: Option<String>) -> (r: DataResponseMessage)
    ensures
        r@ == (code, FAILURE, leader_id as u64, Some(encode_utf8(match leader_addr {
            Some(a) => a@,
            None => fallback_leader_addr(),
        }))),
{
    let addr = match leader_addr {
        Some(a) => a,
        None => "127.0.0.1:9000".to_owned(),
    };
    let bytes = addr.as_str().as_bytes_vec();
    DataResponseMessage::new(code, FAILURE, leader_id as u64, Some(bytes))
}

/// How a central server handles a request, by its operation code.
#[derive(Debug)]
pub enum RequestRoute {
    /// Answer with the cluster's topology (any node answers).
    Probe,
    /// Redirect a regional server to the leader with a registration response.
    RedirectRegistration,
    /// Redirect the client to the leader with `redirect_response`.
    Redirect,
    /// Register the regional server (leader only).
    RegisterRegional,
    /// Execute the operation (leader only).
    Execute,
}

/// The route of a request: probes anywhere; everything else only on the
/// leader, which registers regional servers apart from the other operations.
pub open spec fn request_route(code: u8, is_leader: bool) -> RequestRoute {
    if code == PROBE {
        RequestRoute::Probe
    } else if !is_leader {
        if code == REGISTER_REGIONAL {
            RequestRoute::RedirectRegistration
        } else {
            RequestRoute::Redirect
        }
    } else if code == REGISTER_REGIONAL {
        RequestRoute::RegisterRegional
    } else {
        RequestRoute::Execute
    }
}

/// Routes a request with operation code `code`.
pub fn route_request(code: u8, is_leader: bool) -> (r: RequestRoute)
    ensures
        r == request_route(code, is_leader),
{
    if code == PROBE {
        RequestRoute::Probe
    } else if !is_leader {
        if code == REGISTER_REGIONAL {
            RequestRoute::RedirectRegistration
        } else {
            RequestRoute::Redirect
        }
    } else if code == REGISTER_REGIONAL {
        RequestRoute::RegisterRegional
    } else {
        RequestRoute::Execute
    }
}

/// The answer to a probe: the leader's client address and those of all the
/// nodes of the cluster, as the payload of a successful response. The
/// leader must be in the node's cluster list.
pub fn send_cluster_date(ring_node: &RingElectionNode) -> (r: DataResponseMessage)
    requires
        find_node(ring_node@.cluster, ring_node@.current_leader_id) is Some,
    ensures
        r@.0 == PROBE && r@.1 == SUCCESS && r@.2 == 0,
        r@.3 == Some(
            crate::messages::probe_response::probe_response_wire(
                (
                    find_node(ring_node@.cluster, ring_node@.current_leader_id).unwrap().2,
                    ring_node@.cluster.map_values(|n: crate::election::messages::NodeView| n.2),
                ),
            ),
        ),
{
    let addrs = ring_node.get_cluster_client_addrs();
    let leader = ring_node.get_leader_addr();
    let leader_addr = match leader {
        Some(a) => a,
        None => {
            assert(false);
            String::new()
        },
    };
    let msg = ProbeResponse::new(leader_addr, addrs);
    let piggybacked = msg.serialize();
    DataResponseMessage::new(PROBE, SUCCESS, 0, Some(piggybacked))
}

// ----------------------------------------------------------------------------
// Transaction queries
// ----------------------------------------------------------------------------

/// What a query of transactions asks for.
#[derive(Debug)]
pub enum QueryPlan {
    /// The account's details (query type 1).
    Details { account_id: AccountId },
    /// The account's transactions of one card (or of all cards when 0) in a
    /// period; the answer carries `response_id`.
    Transactions {
        account_id: AccountId,
        card_id: CardId,
        lower_bound: TimeStamp,
        upper_bound: TimeStamp,
        response_id: u64,
    },
}

/// The plan of a query `(q_type, account, card, start, end)`: a start before
/// the epoch counts from the epoch, an end of 0 means no end, and the
/// answer names the card when one is asked for, else the account.
pub open spec fn query_plan(q: (u8, u64, u64, i64, i64)) -> QueryPlan {
    if q.0 == 1 {
        QueryPlan::Details { account_id: q.1 }
    } else {
        QueryPlan::Transactions {
            account_id: q.1,
            card_id: q.2,
            lower_bound: if q.3 > 0 {
                q.3
            } else {
                0
            },
            upper_bound: if q.4 == 0 {
                i64::MAX
            } else {
                q.4
            },
            response_id: if q.2 == 0 {
                q.1
            } else {
                q.2
            },
        }
    }
}

/// Plans a query of transactions.
pub fn plan_query(msg: &QueryDataMessage) -> (r: QueryPlan)
    ensures
        r == query_plan(msg@),
{
    let account_id = msg.account_id();
    if msg.query_type() == 1 {
        return QueryPlan::Details { account_id };
    }
    let card_id = msg.card_id();
    let start = msg.start_date();
    let end = msg.end_date();
    QueryPlan::Transactions {
        account_id,
        card_id,
        lower_bound: if start > 0 {
            start
        } else {
            0
        },
        upper_bound: if end == 0 {
            i64::MAX
        } else {
            end
        },
        response_id: if card_id == 0 {
            account_id
        } else {
            card_id
        },
    }
}

/// A transaction of card `card` at `date` answers a query of card
/// `card_id` (0: any card) between the bounds.
pub open spec fn selected(card_id: u64, lower: i64, upper: i64, date: i64, card: u64) -> bool {
    lower <= date <= upper && (card_id == 0 || card == card_id)
}

/// Whether a transaction of card `card` at `date` answers the query (see
/// `selected`).
fn is_selected(card_id: CardId, lower_bound: TimeStamp, upper_bound: TimeStamp, date: TimeStamp, card: CardId) -> (r: bool)
    ensures
        r == selected(card_id, lower_bound, upper_bound, date, card),
{
    crate::transaction::transaction_belongs(lower_bound, upper_bound, date) && (card_id == 0 || card
        == card_id)
}

/// For each transaction, whether the query selects it, computed on rayon's
/// thread pool (rayon's `par_iter`, `map` and `collect`). The contract
/// claims that the answers come in the transactions' order, as rayon
/// documents for indexed iterators collected into a `Vec`, and that each
/// is what `is_selected` gives.
#[verifier::external_body]
fn selection_flags(
    card_id: CardId,
    lower_bound: TimeStamp,
    upper_bound: TimeStamp,
    transactions: &Vec<(TimeStamp, CardId)>,
) -> (r: Vec<bool>)
    ensures
        r@.len() == transactions@.len(),
        forall|i: int|
            0 <= i < transactions@.len() ==> #[trigger] r@[i] == selected(
                card_id,
                lower_bound,
                upper_bound,
                transactions@[i].0,
                transactions@[i].1,
            ),
{
    transactions.par_iter().map(|t| is_selected(card_id, lower_bound, upper_bound, t.0, t.1)).collect()
}

/// The positions of the transactions, given as `(date, card)`, that a query
/// selects, in order.
pub fn select_transactions(
    card_id: CardId,
    lower_bound: TimeStamp,
    upper_bound: TimeStamp,
    transactions: &Vec<(TimeStamp, CardId)>,
) -> (r: Vec<usize>)
    ensures
        forall|k: int| 0 <= k < r.len() ==> #[trigger] r[k] < transactions.len(),
        forall|k: int, l: int| 0 <= k < l < r.len() ==> #[trigger] r[k] < #[trigger] r[l],
        forall|i: int|
            0 <= i < transactions.len() ==> (r@.contains(i as usize) <==> selected(
                card_id,
                lower_bound,
                upper_bound,
                #[trigger] transactions[i].0,
                transactions[i].1,
            )),
{
    let flags = selection_flags(card_id, lower_bound, upper_bound, transactions);
    let mut r: Vec<usize> = Vec::new();
    let mut i: usize = 0;
    while i < transactions.len()
        invariant
            i <= transactions.len(),
            flags@.len() == transactions@.len(),
            forall|q: int|
                0 <= q < transactions@.len() ==> #[trigger] flags@[q] == selected(
                    card_id,
                    lower_bound,
                    upper_bound,
                    transactions@[q].0,
                    transactions@[q].1,
                ),
            forall|k: int| 0 <= k < r.len() ==> #[trigger] r[k] < i,
            forall|k: int, l: int| 0 <= k < l < r.len() ==> #[trigger] r[k] < #[trigger] r[l],
            forall|j: int|
                0 <= j < i ==> (r@.contains(j as usize) <==> selected(
                    card_id,
                    lower_bound,
                    upper_bound,
                    #[trigger] transactions[j].0,
                    transactions[j].1,
                )),
        decreases transactions.len() - i,
    {
        let ghost before = r@;
        assert(flags@[i as int] == selected(
            card_id,
            lower_bound,
            upper_bound,
            transactions@[i as int].0,
            transactions@[i as int].1,
        ));
        if flags[i] {
            r.push(i);
            assert(r@ == before.push(i));
        }
        assert forall|j: int| 0 <= j <= i implies (r@.contains(j as usize) <==> selected(
            card_id,
            lower_bound,
            upper_bound,
            #[trigger] transactions[j].0,
            transactions[j].1,
        )) by {
            if j < i {
                if r@.contains(j as usize) && !before.contains(j as usize) {
                    assert(r@.last() == i);
                    let k = choose|k: int| 0 <= k < r.len() && r@[k] == j as usize;
                    assert(k == r.len() - 1);
                }
                if before.contains(j as usize) {
                    let k = choose|k: int| 0 <= k < before.len() && before[k] == j as usize;
                    assert(r@[k] == j as usize);
                }
            } else {
                if r@.contains(j as usize) && !(r@.len() > before.len()) {
                    let k = choose|k: int| 0 <= k < r.len() && r@[k] == j as usize;
                    assert(r[k] < i);
                }
                if r@.len() > before.len() {
                    assert(r@[r.len() - 1] == i);
                }
            }
        }
        i = i + 1;
    }
    r
}

// ----------------------------------------------------------------------------
// Enabling regions
// ----------------------------------------------------------------------------

/// `parts` with `sep` between consecutive ones.
pub open spec fn joined(parts: Seq<Seq<char>>, sep: Seq<char>) -> Seq<char>
    decreases parts.len(),
{
    if parts.len() == 0 {
        seq![]
    } else if parts.len() == 1 {
        parts[0]
    } else {
        joined(parts.drop_last(), sep) + sep + parts.last()
    }
}

/// Joins `parts` with `sep` between consecutive ones.
pub fn join_texts(parts: &Vec<String>, sep: &str) -> (r: String)
    ensures
        r@ == joined(parts.deep_view(), sep@),
{
    let ghost pv = parts.deep_view();
    let mut r = String::new();
    let mut i: usize = 0;
    while i < parts.len()
        invariant
            i <= parts@.len(),
            pv == parts.deep_view(),
            r@ == joined(pv.take(i as int), sep@),
        decreases parts@.len() - i,
    {
        assert(pv.take(i + 1).drop_last() =~= pv.take(i as int));
        assert(pv.take(i + 1).last() == parts@[i as int]@);
        if i > 0 {
            string_append(&mut r, sep);
        } else {
            assert(pv.take(0) =~= Seq::<Seq<char>>::empty());
        }
        string_append(&mut r, parts[i].as_str());
        i = i + 1;
    }
    assert(pv.take(i as int) =~= pv);
    r
}

/// Region `name` is registered in `v`.
pub open spec fn is_registered(v: RegistryView, name: Seq<char>) -> bool {
    find_region(v.regions, name) is Some
}

/// The position of the first of `regions` that is not registered in `v`,
/// if any.
pub open spec fn first_missing(v: RegistryView, regions: Seq<Seq<char>>) -> Option<int> {
    if exists|k: int| 0 <= k < regions.len() && !is_registered(v, #[trigger] regions[k]) {
        Some(
            choose|k: int|
                0 <= k < regions.len() && !is_registered(v, #[trigger] regions[k]) && forall|j: int|
                    0 <= j < k ==> is_registered(v, #[trigger] regions[j]),
        )
    } else {
        None
    }
}

/// The position of the first of `regions` that is not registered.
pub fn first_unknown_region(r: &RegionalRegistry, regions: &Vec<String>) -> (i: Option<usize>)
    ensures
        i matches Some(k) ==> k < regions.len() && first_missing(r@, regions.deep_view()) == Some(
            k as int,
        ),
        i is None ==> first_missing(r@, regions.deep_view()) is None,
{
    let ghost rv = regions.deep_view();
    let mut i: usize = 0;
    while i < regions.len()
        invariant
            i <= regions@.len(),
            rv == regions.deep_view(),
            forall|j: int| 0 <= j < i ==> is_registered(r@, #[trigger] rv[j]),
        decreases regions@.len() - i,
    {
        assert(rv[i as int] == regions@[i as int]@);
        if r.get_region_id(regions[i].as_str()).is_none() {
            let ghost k = i as int;
            assert(!is_registered(r@, rv[k]));
            assert forall|k2: int|
                0 <= k2 < rv.len() && !is_registered(r@, #[trigger] rv[k2]) && (forall|j: int|
                    0 <= j < k2 ==> is_registered(r@, #[trigger] rv[j])) implies k2 == k by {
                if k2 < k {
                } else if k2 > k {
                    assert(is_registered(r@, rv[k]));
                }
            }
            return Some(i);
        }
        i = i + 1;
    }
    None
}

/// The error sent back when region `name` is not registered: it lists the
/// registered regions.
pub open spec fn unknown_region_message(name: Seq<char>, registered: Seq<RegionView>) -> Seq<
    char,
> {
    "Región '"@ + name + "' no existe. Regiones disponibles: "@ + joined(
        registered.map_values(|e: RegionView| e.0),
        ", "@,
    )
}

/// The refusal of an update of `account_id`'s regions that names a region
/// nobody registered: a failure carrying `unknown_region_message` for the
/// first such region. `None` when every region is registered.
pub fn unknown_region_response(
    registry: &RegionalRegistry,
    account_id: AccountId,
    regions: &Vec<String>,
) -> (r: Option<DataResponseMessage>)
    ensures
        first_missing(registry@, regions.deep_view()) is None ==> r is None,
        first_missing(registry@, regions.deep_view()) matches Some(k) ==> (r matches Some(m)
            && m@ == (UPD_REGIONS, FAILURE, account_id, Some(
            encode_utf8(unknown_region_message(regions.deep_view()[k], registry@.regions)),
        ))),
{
    match first_unknown_region(registry, regions) {
        None => None,
        Some(i) => {
            let ghost rv = regions.deep_view();
            assert(rv[i as int] == regions@[i as int]@);
            let available = registry.list_regions();
            let mut msg = String::new();
            string_append(&mut msg, "Región '");
            string_append(&mut msg, regions[i].as_str());
            string_append(&mut msg, "' no existe. Regiones disponibles: ");
            let list = join_texts(&available, ", ");
            string_append(&mut msg, list.as_str());
            proof {
                reveal_strlit("Región '");
                reveal_strlit("' no existe. Regiones disponibles: ");
                reveal_strlit(", ");
            }
            assert(msg@ =~= unknown_region_message(regions@[i as int]@, registry@.regions));
            let bytes = msg.as_str().as_bytes_vec();
            Some(DataResponseMessage::new(UPD_REGIONS, FAILURE, account_id, Some(bytes)))
        },
    }
}

/// What the central server does with an update of an account's regions.
#[derive(Debug)]
pub enum RegionsUpdate {
    /// Answer with this refusal; the account is left as it is.
    Refuse(DataResponseMessage),
    /// Give each region its limit (the bits of the number), in this order,
    /// then answer with this success.
    Apply(Vec<(String, u64)>, DataResponseMessage),
}

/// Abstract value of a `RegionsUpdate`.
pub enum RegionsUpdateView {
    Refuse(DataResponseView),
    Apply(Seq<(Seq<char>, u64)>, DataResponseView),
}

impl View for RegionsUpdate {
    type V = RegionsUpdateView;

    open spec fn view(&self) -> RegionsUpdateView {
        match self {
            RegionsUpdate::Refuse(m) => RegionsUpdateView::Refuse(m@),
            RegionsUpdate::Apply(pairs, m) => RegionsUpdateView::Apply(
                pairs@.map_values(|p: (String, u64)| (p.0@, p.1)),
                m@,
            ),
        }
    }
}

/// The update of the regions of account `msg.0` to `msg.1` with limits
/// `msg.2`, all or nothing: a region nobody registered refuses the whole
/// update (naming the first such region); an unknown account refuses it
/// without a message; otherwise every region gets its limit and the answer
/// is a success.
pub open spec fn regions_update(
    v: RegistryView,
    account_known: bool,
    msg: (u64, Seq<Seq<char>>, Seq<u64>),
) -> RegionsUpdateView {
    match first_missing(v, msg.1) {
        Some(k) => RegionsUpdateView::Refuse(
            (UPD_REGIONS, FAILURE, msg.0, Some(encode_utf8(unknown_region_message(msg.1[k], v.regions)))),
        ),
        None => if !account_known {
            RegionsUpdateView::Refuse((UPD_REGIONS, FAILURE, msg.0, None))
        } else {
            RegionsUpdateView::Apply(region_pairs(msg.1, msg.2), (UPD_REGIONS, SUCCESS, msg.0, None))
        },
    }
}

/// Decides an update of an account's regions; `account_known` says whether
/// the account exists.
pub fn plan_update_regions(
    registry: &RegionalRegistry,
    account_known: bool,
    msg: &UpdateRegionsMessage,
) -> (r: RegionsUpdate)
    requires
        msg@.1.len() == msg@.2.len(),
    ensures
        r@ == regions_update(registry@, account_known, msg@),
{
    let account_id = msg.account_id();
    let regions = msg.regions();
    let limits = msg.limits_bits();
    match unknown_region_response(registry, account_id, regions) {
        Some(m) => {
            return RegionsUpdate::Refuse(m);
        },
        None => {},
    }
    if !account_known {
        return RegionsUpdate::Refuse(DataResponseMessage::new(UPD_REGIONS, FAILURE, account_id, None));
    }
    let ghost rv = regions.deep_view();
    let mut pairs: Vec<(String, u64)> = Vec::new();
    let mut i: usize = 0;
    while i < regions.len()
        invariant
            i <= regions@.len(),
            regions@.len() == limits@.len(),
            rv == regions.deep_view(),
            pairs@.map_values(|p: (String, u64)| (p.0@, p.1)) == region_pairs(rv, limits@).take(
                i as int,
            ),
        decreases regions@.len() - i,
    {
        let ghost before = pairs@.map_values(|p: (String, u64)| (p.0@, p.1));
        pairs.push((regions[i].clone(), limits[i]));
        assert(pairs@.map_values(|p: (String, u64)| (p.0@, p.1)) =~= before.push(
            (regions@[i as int]@, limits@[i as int]),
        ));
        assert(rv[i as int] == regions@[i as int]@);
        assert(region_pairs(rv, limits@).take(i + 1) =~= region_pairs(rv, limits@).take(
            i as int,
        ).push((rv[i as int], limits@[i as int])));
        i = i + 1;
    }
    assert(region_pairs(rv, limits@).take(i as int) =~= region_pairs(rv, limits@));
    RegionsUpdate::Apply(pairs, DataResponseMessage::new(UPD_REGIONS, SUCCESS, account_id, None))
}

// ----------------------------------------------------------------------------
// Removing regions
// ----------------------------------------------------------------------------

/// The requested regions, in order, split into those removed from an account
/// whose enabled regions are `enabled` and those not found: a region is
/// removed the first time it is named while enabled; naming it again, or
/// naming a region that is not enabled, finds nothing.
pub open spec fn removal_split(enabled: Set<Seq<char>>, requested: Seq<Seq<char>>) -> (
    Seq<Seq<char>>,
    Seq<Seq<char>>,
)
    decreases requested.len(),
{
    if requested.len() == 0 {
        (seq![], seq![])
    } else {
        let (removed, missing) = removal_split(enabled, requested.drop_last());
        let r = requested.last();
        if enabled.contains(r) && !removed.contains(r) {
            (removed.push(r), missing)
        } else {
            (removed, missing.push(r))
        }
    }
}

/// Whether `name` is one of `names`.
fn has_name(names: &Vec<String>, name: &str) -> (r: bool)
    ensures
        r == names.deep_view().contains(name@),
{
    let ghost nv = names.deep_view();
    let mut i: usize = 0;
    while i < names.len()
        invariant
            i <= names@.len(),
            nv == names.deep_view(),
            forall|j: int| 0 <= j < i ==> nv[j] != name@,
        decreases names@.len() - i,
    {
        assert(nv[i as int] == names@[i as int]@);
        if same_text(names[i].as_str(), name) {
            assert(nv[i as int] == name@);
            return true;
        }
        i = i + 1;
    }
    false
}

/// Splits the regions `requested` for removal from an account whose enabled
/// regions are `enabled`: `(removed, not found)`.
pub fn split_removals(enabled: &Vec<String>, requested: &Vec<String>) -> (r: (
    Vec<String>,
    Vec<String>,
))
    ensures
        (r.0.deep_view(), r.1.deep_view()) == removal_split(
            enabled.deep_view().to_set(),
            requested.deep_view(),
        ),
{
    let ghost ev = enabled.deep_view().to_set();
    let ghost rv = requested.deep_view();
    let mut removed: Vec<String> = Vec::new();
    let mut missing: Vec<String> = Vec::new();
    let mut i: usize = 0;
    assert(rv.take(0) =~= Seq::<Seq<char>>::empty());
    while i < requested.len()
        invariant
            i <= requested@.len(),
            rv == requested.deep_view(),
            ev == enabled.deep_view().to_set(),
            (removed.deep_view(), missing.deep_view()) == removal_split(ev, rv.take(i as int)),
        decreases requested@.len() - i,
    {
        let name = requested[i].as_str();
        assert(rv.take(i + 1).drop_last() =~= rv.take(i as int));
        assert(rv.take(i + 1).last() == name@);
        let ghost before_removed = removed.deep_view();
        let ghost before_missing = missing.deep_view();
        if has_name(enabled, name) && !has_name(&removed, name) {
            assert(ev.contains(name@));
            removed.push(requested[i].clone());
            assert(removed.deep_view() =~= before_removed.push(name@));
        } else {
            assert(enabled.deep_view().contains(name@) ==> ev.contains(name@));
            assert(ev.contains(name@) ==> enabled.deep_view().contains(name@));
            missing.push(requested[i].clone());
            assert(missing.deep_view() =~= before_missing.push(name@));
        }
        i = i + 1;
    }
    assert(rv.take(i as int) =~= rv);
    (removed, missing)
}

/// What `format!("{:?}", names)` (std's `Debug` of a `Vec<String>`) makes
/// of `names`: the quoted, escaped names between brackets, separated by
/// `", "`.
pub uninterp spec fn debug_list(names: Seq<Seq<char>>) -> Seq<char>;

/// `Debug` of a `Vec<String>` (std), written with `format!`.
#[verifier::external_body]
fn debug_names(names: &Vec<String>) -> (r: String)
    ensures
        r@ == debug_list(names.deep_view()),
{
    format!("{:?}", names)
}

/// The error sent back when no region could be removed.
pub open spec fn removal_refusal_message(missing: Seq<Seq<char>>) -> Seq<char> {
    "No se removieron regiones. Regiones no encontradas: "@ + debug_list(missing)
}

/// The refusal of a removal of `account_id`'s regions that removed none: a
/// failure listing the regions not found. `None` when some region was
/// removed.
pub fn removal_refusal(account_id: AccountId, removed: &Vec<String>, not_found: &Vec<String>) -> (r:
    Option<DataResponseMessage>)
    ensures
        removed@.len() > 0 ==> r is None,
        removed@.len() == 0 ==> (r matches Some(m) && m@ == (
            UPD_REMOVE_REGIONS,
            FAILURE,
            account_id,
            Some(encode_utf8(removal_refusal_message(not_found.deep_view()))),
        )),
{
    if removed.len() > 0 {
        return None;
    }
    let mut msg = String::new();
    string_append(&mut msg, "No se removieron regiones. Regiones no encontradas: ");
    let list = debug_names(not_found);
    string_append(&mut msg, list.as_str());
    proof {
        reveal_strlit("No se removieron regiones. Regiones no encontradas: ");
    }
    assert(msg@ =~= removal_refusal_message(not_found.deep_view()));
    let bytes = msg.as_str().as_bytes_vec();
    Some(DataResponseMessage::new(UPD_REMOVE_REGIONS, FAILURE, account_id, Some(bytes)))
}

} // verus!

//! SRV resolution for `_minecraft._tcp.<host>`, with RFC 2782 ranking.

use crate::text::{chars_of, string_of};
use hickory_resolver::proto::rr::{Name, RData};
use rand::rngs::StdRng;
use rand::RngExt;
use vstd::prelude::*;

verus! {

// ─── Outside types and calls ─────────────────────────────────────────────────

/// Declares `hickory_resolver::proto::rr::RData`.
#[verifier::external_type_specification]
#[verifier::external_body]
pub struct ExRData(RData);

/// Declares `hickory_resolver::proto::rr::Name`.
#[verifier::external_type_specification]
#[verifier::external_body]
pub struct ExName(Name);

/// Declares `rand::rngs::StdRng`.
#[verifier::external_type_specification]
#[verifier::external_body]
pub struct ExStdRng(StdRng);

/// The priority, weight, port and target of record data of the `SRV` kind.
pub uninterp spec fn srv_data(data: RData) -> Option<(u16, u16, u16, Name)>;

/// Whether a domain name is the root, `"."`.
pub uninterp spec fn is_root(name: Name) -> bool;

/// The text a domain name is displayed as.
pub uninterp spec fn name_text(name: Name) -> Seq<char>;

/// Takes the data of a DNS record apart: `Some` with the four public fields of
/// hickory's `rdata::SRV` if it is the `RData::SRV` variant, and `None` for
/// every other variant. Claims that this is a matter of the data alone.
#[verifier::external_body]
fn srv_fields(data: &RData) -> (res: Option<(u16, u16, u16, &Name)>)
    ensures
        res is Some <==> srv_data(*data) is Some,
        res is Some ==> srv_data(*data) == Some(
            (res->Some_0.0, res->Some_0.1, res->Some_0.2, *res->Some_0.3),
        ),
{
    match data {
        RData::SRV(srv) => Some((srv.priority, srv.weight, srv.port, &srv.target)),
        _ => None,
    }
}

/// Calls hickory's `Name::is_root`. Claims that the answer is a matter of the
/// name alone.
#[verifier::external_body]
fn name_is_root(name: &Name) -> (res: bool)
    ensures
        res == is_root(*name),
{
    name.is_root()
}

/// Displays a hickory `Name`. Claims that the text is a matter of the name
/// alone.
#[verifier::external_body]
fn name_string(name: &Name) -> (res: String)
    ensures
        res@ == name_text(*name),
{
    name.to_string()
}

/// Draws a place with `rand::RngExt::random_range`, which panics on an empty
/// range. Claims only that it lies below the bound.
#[verifier::external_body]
pub(crate) fn random_index(rng: &mut StdRng, bound: usize) -> (res: usize)
    requires
        bound > 0,
    ensures
        res < bound,
{
    rng.random_range(0..bound)
}

/// Draws a point with `rand::RngExt::random_range`, which panics on an empty
/// range. Claims only that it lies below the bound.
#[verifier::external_body]
pub(crate) fn random_point(rng: &mut StdRng, bound: u64) -> (res: u64)
    requires
        bound > 0,
    ensures
        res < bound,
{
    rng.random_range(0..bound)
}

/// Whether a call of [`random_index`] on a generator in this state and with this
/// bound may return this place.
pub closed spec fn index_drawn(rng: StdRng, bound: usize, index: usize) -> bool {
    exists|source: &mut StdRng| *source == rng && #[trigger] call_ensures(
        random_index,
        (source, bound),
        index,
    )
}

/// Whether a call of [`random_point`] on a generator in this state and with this
/// bound may return this point.
pub closed spec fn point_drawn(rng: StdRng, bound: u64, point: u64) -> bool {
    exists|source: &mut StdRng| *source == rng && #[trigger] call_ensures(
        random_point,
        (source, bound),
        point,
    )
}

/// What is drawn lies below the bound.
pub proof fn lemma_drawn_below(rng: StdRng, index_bound: usize, index: usize, bound: u64, point: u64)
    ensures
        index_drawn(rng, index_bound, index) ==> index < index_bound,
        point_drawn(rng, bound, point) ==> point < bound,
{
}

/// **To be drawn is to come out of a call of the generator with that very bound.**
pub(crate) proof fn law_drawn_is_returned_by_a_draw(
    rng: StdRng,
    index_bound: usize,
    index: usize,
    bound: u64,
    point: u64,
)
    ensures
        index_drawn(rng, index_bound, index) <==> exists|source: &mut StdRng|
            *source == rng && #[trigger] call_ensures(random_index, (source, index_bound), index),
        point_drawn(rng, bound, point) <==> exists|source: &mut StdRng|
            *source == rng && #[trigger] call_ensures(random_point, (source, bound), point),
{
}

/// Makes a draw, and keeps on record which draw it was: the generator's state and
/// the bound are those that the function was called with.
fn draw<T, F: FnOnce(&mut StdRng, T) -> T>(from: F, rng: &mut StdRng, bound: T) -> (res: T)
    requires
        forall|source: &mut StdRng| #[trigger] call_requires(from, (source, bound)),
    ensures
        exists|source: &mut StdRng| *source == *old(rng) && #[trigger] call_ensures(
            from,
            (source, bound),
            res,
        ),
{
    from(rng, bound)
}

// ─── Records ─────────────────────────────────────────────────────────────────

/// A parsed SRV record.
#[derive(Debug, Clone, PartialEq, Eq)]
pub struct SrvRecord {
    pub priority: u16,
    pub weight: u16,
    pub port: u16,
    pub target: String,
}

/// What an SRV record says, the target as text.
#[verifier::ext_equal]
pub struct Service {
    pub priority: u16,
    pub weight: u16,
    pub port: u16,
    pub target: Seq<char>,
}

impl View for SrvRecord {
    type V = Service;

    open spec fn view(&self) -> Service {
        Service {
            priority: self.priority,
            weight: self.weight,
            port: self.port,
            target: self.target@,
        }
    }
}

/// A text without the dots at its end.
pub open spec fn without_dots(text: Seq<char>) -> Seq<char>
    decreases text.len(),
{
    if text.len() > 0 && text.last() == '.' {
        without_dots(text.drop_last())
    } else {
        text
    }
}

/// The name under which a host's SRV records are looked up. It ends in a dot, so
/// that the resolver's search domains are not appended.
pub open spec fn query_name(host: Seq<char>) -> Seq<char> {
    let name = "_minecraft._tcp."@ + host;
    if host.len() > 0 && host.last() == '.' {
        name
    } else {
        name + seq!['.']
    }
}

/// The name to look a host's SRV records up under.
pub fn srv_query(host: &str) -> (res: String)
    ensures
        res@ == query_name(host@),
{
    let mut query = "_minecraft._tcp.".to_owned().concat(host);
    let chars = chars_of(host);
    if chars.len() == 0 || chars[chars.len() - 1] != '.' {
        query.push('.');
    }
    assert(query@ =~= query_name(host@));
    query
}

/// The record that the fields of SRV data make up. A root target (`"."`) marks
/// the service as not available at this domain (RFC 2782) and makes none.
pub open spec fn usable(
    priority: u16,
    weight: u16,
    port: u16,
    root: bool,
    target: Seq<char>,
) -> Option<Service> {
    if root {
        None
    } else {
        Some(Service { priority, weight, port, target: without_dots(target) })
    }
}

/// Makes a record of the fields of SRV data, unless the target is the root.
pub fn srv_from_fields(priority: u16, weight: u16, port: u16, root: bool, target: &str) -> (res:
    Option<SrvRecord>)
    ensures
        match usable(priority, weight, port, root, target@) {
            Some(service) => res matches Some(record) && record@ == service,
            None => res is None,
        },
{
    if root {
        return None;
    }
    Some(SrvRecord { priority, weight, port, target: trim_dots(target) })
}

/// Drops the dots at the end of a text.
fn trim_dots(text: &str) -> (res: String)
    ensures
        res@ == without_dots(text@),
{
    let chars = chars_of(text);
    let mut end: usize = chars.len();
    assert(chars@.take(end as int) =~= text@);
    while end > 0 && chars[end - 1] == '.'
        invariant
            end <= chars@.len(),
            without_dots(chars@.take(end as int)) == without_dots(text@),
        decreases end,
    {
        assert(chars@.take(end as int).drop_last() =~= chars@.take(end - 1));
        end = end - 1;
    }
    assert(chars@.subrange(0, end as int) =~= chars@.take(end as int));
    string_of(&chars, 0, end)
}

/// What the data of a DNS record says about the service, if it is SRV data and
/// of use.
pub open spec fn service(data: RData) -> Option<Service> {
    match srv_data(data) {
        Some((priority, weight, port, target)) => usable(
            priority,
            weight,
            port,
            is_root(target),
            name_text(target),
        ),
        None => None,
    }
}

/// The SRV record that the data of a DNS record holds, if it is of that kind and
/// its target is not the root.
pub fn srv_from_record(data: &RData) -> (res: Option<SrvRecord>)
    ensures
        match service(*data) {
            Some(service) => res matches Some(record) && record@ == service,
            None => res is None,
        },
{
    match srv_fields(data) {
        Some((priority, weight, port, target)) => srv_from_fields(
            priority,
            weight,
            port,
            name_is_root(target),
            name_string(target).as_str(),
        ),
        None => None,
    }
}

/// What the SRV records among DNS answers say, in order, without those that are
/// of no use.
pub open spec fn services(answers: Seq<&RData>) -> Seq<Service>
    decreases answers.len(),
{
    if answers.len() == 0 {
        Seq::empty()
    } else {
        let before = services(answers.drop_last());
        match service(*answers.last()) {
            Some(service) => before.push(service),
            None => before,
        }
    }
}

/// The usable SRV records among DNS answers.
pub fn collect_srv(answers: &Vec<&RData>) -> (res: Vec<SrvRecord>)
    ensures
        res@.len() <= answers@.len(),
        res@.map_values(|record: SrvRecord| record@) == services(answers@),
{
    let mut res: Vec<SrvRecord> = Vec::new();
    let mut i: usize = 0;
    let ghost says = |record: SrvRecord| record@;
    assert(answers@.take(0) =~= Seq::<&RData>::empty());
    assert(res@.map_values(says) =~= Seq::<Service>::empty());
    while i < answers.len()
        invariant
            i <= answers@.len(),
            says == (|record: SrvRecord| record@),
            res@.len() <= i,
            res@.map_values(says) == services(answers@.take(i as int)),
        decreases answers@.len() - i,
    {
        let ghost before = res@;
        let ghost next = answers@.take(i + 1);
        assert(next.drop_last() =~= answers@.take(i as int));
        assert(next.last() == answers@[i as int]);
        if let Some(record) = srv_from_record(answers[i]) {
            res.push(record);
            assert(res@.map_values(says) =~= before.map_values(says).push(record@));
        }
        i = i + 1;
    }
    assert(answers@.take(answers@.len() as int) =~= answers@);
    res
}

// ─── Selection ───────────────────────────────────────────────────────────────

/// Whether no record has a lower priority number.
pub open spec fn is_lowest(records: Seq<SrvRecord>, priority: u16) -> bool {
    &&& exists|i: int| 0 <= i < records.len() && #[trigger] records[i].priority == priority
    &&& forall|i: int| 0 <= i < records.len() ==> priority <= #[trigger] records[i].priority
}

/// The lowest priority number among the records.
pub open spec fn lowest(records: Seq<SrvRecord>) -> u16 {
    choose|priority: u16| is_lowest(records, priority)
}

/// The records of one priority, in their order.
pub open spec fn of_priority(records: Seq<SrvRecord>, priority: u16) -> Seq<SrvRecord>
    decreases records.len(),
{
    if records.len() == 0 {
        records
    } else if records[0].priority == priority {
        seq![records[0]] + of_priority(records.skip(1), priority)
    } else {
        of_priority(records.skip(1), priority)
    }
}

/// The records that are drawn from: those of the lowest priority number.
pub open spec fn pool(records: Seq<SrvRecord>) -> Seq<SrvRecord> {
    of_priority(records, lowest(records))
}

/// The weights of the records, summed up.
pub open spec fn total_weight(records: Seq<SrvRecord>) -> nat
    decreases records.len(),
{
    if records.len() == 0 {
        0
    } else {
        records[0].weight as nat + total_weight(records.skip(1))
    }
}

/// The record whose running sum of weights crosses the point.
pub open spec fn crossing(records: Seq<SrvRecord>, point: nat) -> Option<SrvRecord>
    decreases records.len(),
{
    if records.len() == 0 {
        None
    } else if records[0].weight > point {
        Some(records[0])
    } else {
        crossing(records.skip(1), (point - records[0].weight) as nat)
    }
}

/// How many points there are to draw from: one for each unit of weight in the
/// pool or, where all weights are zero, one for each record.
pub open spec fn points(records: Seq<SrvRecord>) -> nat {
    let total = total_weight(pool(records));
    if total == 0 {
        pool(records).len()
    } else {
        total
    }
}

/// The record that a drawn point stands for.
pub open spec fn drawn(records: Seq<SrvRecord>, point: nat) -> Option<SrvRecord> {
    if total_weight(pool(records)) == 0 {
        Some(pool(records)[point as int])
    } else {
        crossing(pool(records), point)
    }
}

/// Some priority number is the lowest, and there is only one.
pub proof fn lemma_lowest(records: Seq<SrvRecord>)
    requires
        records.len() > 0,
    ensures
        is_lowest(records, lowest(records)),
        forall|priority: u16| is_lowest(records, priority) ==> priority == lowest(records),
    decreases records.len(),
{
    let last = records.last();
    if records.len() == 1 {
        assert(records[0].priority == last.priority);
        assert(is_lowest(records, last.priority));
    } else {
        let rest = records.drop_last();
        lemma_lowest(rest);
        let low = lowest(rest);
        let i = choose|i: int| 0 <= i < rest.len() && #[trigger] rest[i].priority == low;
        assert(records[i] == rest[i]);
        assert forall|j: int| 0 <= j < records.len() implies (if last.priority < low {
            last.priority
        } else {
            low
        }) <= #[trigger] records[j].priority by {
            if j < rest.len() {
                assert(records[j] == rest[j]);
            }
        }
        if last.priority < low {
            assert(records[records.len() - 1].priority == last.priority);
            assert(is_lowest(records, last.priority));
        } else {
            assert(is_lowest(records, low));
        }
    }
    assert forall|a: u16, b: u16| is_lowest(records, a) && is_lowest(records, b) implies a == b by {
        let i = choose|i: int| 0 <= i < records.len() && #[trigger] records[i].priority == a;
        let j = choose|j: int| 0 <= j < records.len() && #[trigger] records[j].priority == b;
        assert(records[i].priority == a && records[j].priority == b);
    }
}

/// The lowest priority number.
fn lowest_priority(records: &Vec<SrvRecord>) -> (res: u16)
    requires
        records@.len() > 0,
    ensures
        res == lowest(records@),
{
    let mut res: u16 = records[0].priority;
    let mut i: usize = 1;
    assert(records@[0].priority == res);
    while i < records.len()
        invariant
            1 <= i <= records@.len(),
            exists|k: int| 0 <= k < records@.len() && #[trigger] records@[k].priority == res,
            forall|k: int| 0 <= k < i ==> res <= #[trigger] records@[k].priority,
        decreases records@.len() - i,
    {
        if records[i].priority < res {
            res = records[i].priority;
            assert(records@[i as int].priority == res);
        }
        i = i + 1;
    }
    proof {
        assert(is_lowest(records@, res));
        lemma_lowest(records@);
    }
    res
}

/// The most records whose weights are sure to add up in 64 bits.
pub const MAX_RECORDS: u64 = 0x1_0000_0000_0000;

/// Weights have 16 bits, and a group is no larger than the whole.
proof fn lemma_weight_bound(records: Seq<SrvRecord>, priority: u16)
    ensures
        total_weight(of_priority(records, priority)) <= 0xFFFF * records.len(),
    decreases records.len(),
{
    if records.len() > 0 {
        let rest = records.skip(1);
        let all = of_priority(records, priority);
        lemma_weight_bound(rest, priority);
        if records[0].priority == priority {
            assert(all.skip(1) =~= of_priority(rest, priority));
            assert(all[0] == records[0]);
        }
    }
}

/// How many records have the priority, and the sum of their weights.
fn measure(records: &Vec<SrvRecord>, priority: u16) -> (res: (usize, u64))
    requires
        records@.len() <= MAX_RECORDS,
    ensures
        res.0 == of_priority(records@, priority).len(),
        res.1 == total_weight(of_priority(records@, priority)),
{
    proof {
        lemma_weight_bound(records@, priority);
    }
    let mut count: usize = 0;
    let mut total: u64 = 0;
    let mut i: usize = 0;
    let ghost all = of_priority(records@, priority);
    assert(records@.skip(0) =~= records@);
    while i < records.len()
        invariant
            i <= records@.len(),
            count <= i,
            all == of_priority(records@, priority),
            total_weight(all) <= u64::MAX,
            count + of_priority(records@.skip(i as int), priority).len() == all.len(),
            total + total_weight(of_priority(records@.skip(i as int), priority)) == total_weight(
                all,
            ),
        decreases records@.len() - i,
    {
        let ghost rest = records@.skip(i as int);
        assert(rest.skip(1) =~= records@.skip(i + 1));
        assert(rest[0] == records@[i as int]);
        if records[i].priority == priority {
            let ghost tail = of_priority(rest.skip(1), priority);
            assert(of_priority(rest, priority).skip(1) =~= tail);
            assert(of_priority(rest, priority)[0] == rest[0]);
            count = count + 1;
            total = total + records[i].weight as u64;
        }
        i = i + 1;
    }
    assert(records@.skip(records@.len() as int) =~= Seq::<SrvRecord>::empty());
    (count, total)
}

/// Picks the record that a drawn point stands for.
pub fn pick_at(records: Vec<SrvRecord>, point: u64) -> (res: Option<SrvRecord>)
    requires
        records@.len() <= MAX_RECORDS,
        records@.len() > 0 ==> point < points(records@),
    ensures
        records@.len() == 0 ==> res is None,
        records@.len() > 0 ==> res == drawn(records@, point as nat) && res is Some,
{
    if records.len() == 0 {
        return None;
    }
    let priority: u16 = lowest_priority(&records);
    let (_, total) = measure(&records, priority);
    let mut records = records;
    let at: usize = if total == 0 {
        find_nth(&records, priority, point)
    } else {
        find_crossing(&records, priority, point)
    };
    Some(records.swap_remove(at))
}

/// Where the `n`-th record of the priority stands.
fn find_nth(records: &Vec<SrvRecord>, priority: u16, n: u64) -> (res: usize)
    requires
        n < of_priority(records@, priority).len(),
    ensures
        res < records@.len(),
        records@[res as int] == of_priority(records@, priority)[n as int],
{
    let mut left: u64 = n;
    let end: usize = records.len();
    let mut i: usize = 0;
    let ghost all = of_priority(records@, priority);
    assert(records@.skip(0) =~= records@);
    loop
        invariant
            i <= end == records@.len(),
            all == of_priority(records@, priority),
            n < all.len(),
            left < of_priority(records@.skip(i as int), priority).len(),
            of_priority(records@.skip(i as int), priority)[left as int] == all[n as int],
        decreases records@.len() - i,
    {
        let ghost rest = records@.skip(i as int);
        assert(i < records@.len()) by {
            if i == records@.len() {
                assert(rest =~= Seq::<SrvRecord>::empty());
            }
        }
        assert(rest.skip(1) =~= records@.skip(i + 1));
        assert(rest[0] == records@[i as int]);
        if records[i].priority == priority {
            if left == 0 {
                return i;
            }
            left = left - 1;
        }
        i = i + 1;
    }
}

/// Where the record of the priority stands whose running sum of weights crosses
/// the point.
fn find_crossing(records: &Vec<SrvRecord>, priority: u16, point: u64) -> (res: usize)
    requires
        point < total_weight(of_priority(records@, priority)),
    ensures
        res < records@.len(),
        crossing(of_priority(records@, priority), point as nat) == Some(records@[res as int]),
{
    let mut cursor: u64 = point;
    let end: usize = records.len();
    let mut i: usize = 0;
    let ghost all = of_priority(records@, priority);
    assert(records@.skip(0) =~= records@);
    loop
        invariant
            i <= end == records@.len(),
            all == of_priority(records@, priority),
            cursor < total_weight(of_priority(records@.skip(i as int), priority)),
            crossing(of_priority(records@.skip(i as int), priority), cursor as nat) == crossing(
                all,
                point as nat,
            ),
        decreases records@.len() - i,
    {
        let ghost rest = records@.skip(i as int);
        assert(i < records@.len()) by {
            if i == records@.len() {
                assert(rest =~= Seq::<SrvRecord>::empty());
            }
        }
        assert(rest.skip(1) =~= records@.skip(i + 1));
        assert(rest[0] == records@[i as int]);
        if records[i].priority == priority {
            let ghost tail = of_priority(rest.skip(1), priority);
            assert(of_priority(rest, priority).skip(1) =~= tail);
            assert(of_priority(rest, priority)[0] == rest[0]);
            let weight: u64 = records[i].weight as u64;
            if weight > cursor {
                return i;
            }
            cursor = cursor - weight;
        }
        i = i + 1;
    }
}

/// RFC 2782 target selection: lowest priority group first; within the group,
/// choose weighted-random by `weight` (uniform when all weights are 0).
pub fn pick_srv(records: Vec<SrvRecord>, rng: &mut StdRng) -> (res: Option<SrvRecord>)
    requires
        records@.len() <= MAX_RECORDS,
    ensures
        records@.len() == 0 ==> res is None,
        records@.len() > 0 ==> res is Some && exists|point: nat|
            point < points(records@) && #[trigger] drawn(records@, point) == res,
        records@.len() > 0 && total_weight(pool(records@)) == 0 ==> exists|index: usize|
            index_drawn(*old(rng), pool(records@).len() as usize, index) && #[trigger] drawn(
                records@,
                index as nat,
            ) == res,
        records@.len() > 0 && total_weight(pool(records@)) > 0 ==> exists|point: u64|
            point_drawn(*old(rng), total_weight(pool(records@)) as u64, point)
                && #[trigger] drawn(records@, point as nat) == res,
{
    if records.len() == 0 {
        return None;
    }
    let priority: u16 = lowest_priority(&records);
    let (count, total) = measure(&records, priority);
    let point: u64 = if total == 0 {
        proof {
            lemma_pool_not_empty(records@);
        }
        // All weights zero: uniform choice.
        let index: usize = draw(random_index, rng, count);
        assert(index_drawn(*old(rng), count, index));
        index as u64
    } else {
        // Weighted: the record whose running sum crosses the random point.
        let point: u64 = draw(random_point, rng, total);
        assert(point_drawn(*old(rng), total, point));
        point
    };
    let ghost all = records@;
    let res = pick_at(records, point);
    assert(drawn(all, point as nat) == res);
    assert(total == 0 ==> drawn(all, (point as usize) as nat) == res);
    res
}

/// Picks one target among the answers to an SRV lookup, per RFC 2782. Returns
/// `None` when there is no usable record; the caller then falls back to the
/// direct address.
pub fn resolve_srv(answers: &Vec<&RData>, rng: &mut StdRng) -> (res: Option<SrvRecord>)
    requires
        answers@.len() <= MAX_RECORDS,
    ensures
        services(answers@).len() == 0 ==> res is None,
        services(answers@).len() > 0 ==> res is Some && exists|
            records: Seq<SrvRecord>,
            point: nat,
        |
            records.map_values(|record: SrvRecord| record@) == services(answers@) && point < points(
                records,
            ) && #[trigger] drawn(records, point) == res,
        services(answers@).len() > 0 ==> exists|records: Seq<SrvRecord>, point: nat|
            {
                &&& records.map_values(|record: SrvRecord| record@) == services(answers@)
                &&& #[trigger] drawn(records, point) == res
                &&& if total_weight(pool(records)) == 0 {
                    index_drawn(*old(rng), pool(records).len() as usize, point as usize) && point
                        <= usize::MAX
                } else {
                    point_drawn(*old(rng), total_weight(pool(records)) as u64, point as u64)
                        && point <= u64::MAX
                }
            },
{
    let records = collect_srv(answers);
    let ghost all = records@;
    let res = pick_srv(records, rng);
    proof {
        if all.len() > 0 {
            if total_weight(pool(all)) == 0 {
                let index = choose|index: usize|
                    index_drawn(*old(rng), pool(all).len() as usize, index) && #[trigger] drawn(
                        all,
                        index as nat,
                    ) == res;
                assert(drawn(all, index as nat) == res);
            } else {
                let point = choose|point: u64|
                    point_drawn(*old(rng), total_weight(pool(all)) as u64, point)
                        && #[trigger] drawn(all, point as nat) == res;
                assert(drawn(all, point as nat) == res);
            }
        }
    }
    res
}

/// Where there are records, there is one to draw.
pub proof fn lemma_pool_not_empty(records: Seq<SrvRecord>)
    requires
        records.len() > 0,
    ensures
        pool(records).len() > 0,
{
    lemma_lowest(records);
    let low = lowest(records);
    let i = choose|i: int| 0 <= i < records.len() && #[trigger] records[i].priority == low;
    lemma_of_priority_holds(records, low, i);
}

/// A record stands among those of its priority.
proof fn lemma_of_priority_holds(records: Seq<SrvRecord>, priority: u16, i: int)
    requires
        0 <= i < records.len(),
        records[i].priority == priority,
    ensures
        of_priority(records, priority).contains(records[i]),
    decreases records.len(),
{
    let all = of_priority(records, priority);
    if i == 0 {
        assert(all[0] == records[0]);
    } else {
        let rest = records.skip(1);
        lemma_of_priority_holds(rest, priority, i - 1);
        let tail = of_priority(rest, priority);
        let k = choose|k: int| 0 <= k < tail.len() && tail[k] == records[i];
        if records[0].priority == priority {
            assert(all[k + 1] == tail[k]);
        } else {
            assert(all[k] == tail[k]);
        }
    }
}

} // verus!

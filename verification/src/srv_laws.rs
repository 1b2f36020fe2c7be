//! What holds of the choice among SRV records.

use crate::srv::{
    crossing, drawn, is_lowest, is_root, lemma_lowest, lemma_pool_not_empty, lowest, name_text,
    of_priority, points, pool, query_name, service, services, srv_data, total_weight, without_dots,
    Service, SrvRecord,
};
use hickory_resolver::proto::rr::RData;
use vstd::prelude::*;

verus! {

/// The weights of the first `k` records, summed up.
pub open spec fn weight_before(records: Seq<SrvRecord>, k: int) -> nat {
    total_weight(records.take(k))
}

/// The records of a priority are records, and have it.
proof fn lemma_of_priority(records: Seq<SrvRecord>, priority: u16)
    ensures
        forall|k: int|
            0 <= k < of_priority(records, priority).len() ==> (#[trigger] of_priority(
                records,
                priority,
            )[k]).priority == priority && records.contains(of_priority(records, priority)[k]),
    decreases records.len(),
{
    if records.len() > 0 {
        let rest = records.skip(1);
        let tail = of_priority(rest, priority);
        let all = of_priority(records, priority);
        lemma_of_priority(rest, priority);
        assert forall|k: int| 0 <= k < all.len() implies (#[trigger] all[k]).priority == priority
            && records.contains(all[k]) by {
            if records[0].priority == priority && k == 0 {
                assert(all[0] == records[0]);
            } else {
                let m = if records[0].priority == priority {
                    k - 1
                } else {
                    k
                };
                assert(all[k] == tail[m]);
                let i = choose|i: int| 0 <= i < rest.len() && rest[i] == tail[m];
                assert(records[i + 1] == tail[m]);
            }
        }
    }
}

/// A point below the sum of the weights crosses some record, of weight above
/// zero.
proof fn lemma_crossing(records: Seq<SrvRecord>, point: nat)
    requires
        point < total_weight(records),
    ensures
        crossing(records, point) matches Some(record) && record.weight > 0 && records.contains(
            record,
        ),
    decreases records.len(),
{
    if records[0].weight > point {
        assert(records.contains(records[0]));
    } else {
        let rest = records.skip(1);
        lemma_crossing(rest, (point - records[0].weight) as nat);
        let record = crossing(records, point).unwrap();
        let i = choose|i: int| 0 <= i < rest.len() && rest[i] == record;
        assert(records[i + 1] == record);
    }
}

/// **Every draw yields one of the records, and one of the lowest priority
/// number.**
pub proof fn law_draw_stays_in_the_lowest_priority_group(records: Seq<SrvRecord>, point: nat)
    requires
        records.len() > 0,
        point < points(records),
    ensures
        drawn(records, point) matches Some(record) && records.contains(record) && is_lowest(
            records,
            record.priority,
        ),
{
    lemma_lowest(records);
    lemma_of_priority(records, lowest(records));
    let group = pool(records);
    if total_weight(group) == 0 {
        assert(group[point as int].priority == lowest(records));
    } else {
        lemma_crossing(group, point);
        let record = crossing(group, point).unwrap();
        let k = choose|k: int| 0 <= k < group.len() && group[k] == record;
        assert(group[k].priority == lowest(records));
    }
}

/// **There is always something to draw**: where there are records, there is a
/// point.
pub proof fn law_records_leave_something_to_draw(records: Seq<SrvRecord>)
    requires
        records.len() > 0,
    ensures
        points(records) > 0,
{
    lemma_pool_not_empty(records);
}

/// **The choice is weighted**: unless all weights are zero, each record of the
/// group stands for as many of the points as its weight says, the records taking
/// their turns.
pub proof fn law_each_record_has_its_weight_in_points(
    records: Seq<SrvRecord>,
    k: int,
    point: nat,
)
    requires
        0 <= k < pool(records).len(),
        total_weight(pool(records)) > 0,
        weight_before(pool(records), k) <= point < weight_before(pool(records), k) + pool(
            records,
        )[k].weight,
    ensures
        point < points(records),
        drawn(records, point) == Some(pool(records)[k]),
{
    lemma_turns(pool(records), k, point);
}

/// The point at which a record's turn begins.
proof fn lemma_turns(group: Seq<SrvRecord>, k: int, point: nat)
    requires
        0 <= k < group.len(),
        weight_before(group, k) <= point < weight_before(group, k) + group[k].weight,
    ensures
        point < total_weight(group),
        crossing(group, point) == Some(group[k]),
    decreases group.len(),
{
    if k > 0 {
        let rest = group.skip(1);
        let before = group.take(k);
        assert(before.skip(1) =~= rest.take(k - 1));
        assert(before[0] == group[0]);
        lemma_turns(rest, k - 1, (point - group[0].weight) as nat);
    } else {
        assert(group.take(0) =~= Seq::<SrvRecord>::empty());
    }
}

/// **The choice is uniform when all weights are zero**: each record of the group
/// stands for one point.
pub proof fn law_zero_weights_are_drawn_evenly(records: Seq<SrvRecord>, k: int)
    requires
        0 <= k < pool(records).len(),
        total_weight(pool(records)) == 0,
    ensures
        points(records) == pool(records).len(),
        drawn(records, k as nat) == Some(pool(records)[k]),
{
}

/// **What is drawn from is every record of the lowest priority number, in order**,
/// and that number is the least that any record has.
pub proof fn law_pool_is_the_lowest_priority_group(records: Seq<SrvRecord>)
    requires
        records.len() > 0,
    ensures
        pool(records) == records.filter(|record: SrvRecord| record.priority == lowest(records)),
        exists|i: int| 0 <= i < records.len() && (#[trigger] records[i]).priority == lowest(records),
        forall|i: int|
            0 <= i < records.len() ==> lowest(records) <= (#[trigger] records[i]).priority,
{
    lemma_lowest(records);
    lemma_of_priority_is_filter(records, lowest(records));
}

/// The records of a priority are those that are left when the others are taken
/// out.
proof fn lemma_of_priority_is_filter(records: Seq<SrvRecord>, priority: u16)
    ensures
        of_priority(records, priority) == records.filter(
            |record: SrvRecord| record.priority == priority,
        ),
    decreases records.len(),
{
    reveal(Seq::filter);
    if records.len() > 0 {
        let before = records.drop_last();
        lemma_of_priority_is_filter(before, priority);
        lemma_of_priority_push(before, records.last(), priority);
        assert(before.push(records.last()) =~= records);
    } else {
        assert(of_priority(records, priority) =~= Seq::<SrvRecord>::empty());
    }
}

/// One more record joins those of its priority at the end.
proof fn lemma_of_priority_push(records: Seq<SrvRecord>, record: SrvRecord, priority: u16)
    ensures
        of_priority(records.push(record), priority) == (if record.priority == priority {
            of_priority(records, priority).push(record)
        } else {
            of_priority(records, priority)
        }),
    decreases records.len(),
{
    let more = records.push(record);
    if records.len() == 0 {
        assert(more.skip(1) =~= Seq::<SrvRecord>::empty());
        assert(of_priority(more.skip(1), priority) =~= Seq::<SrvRecord>::empty());
        assert(of_priority(records, priority) =~= Seq::<SrvRecord>::empty());
        assert(more[0] == record);
        assert(of_priority(more, priority) =~= (if record.priority == priority {
            of_priority(records, priority).push(record)
        } else {
            of_priority(records, priority)
        }));
    } else {
        let rest = records.skip(1);
        lemma_of_priority_push(rest, record, priority);
        assert(more.skip(1) =~= rest.push(record));
        assert(more[0] == records[0]);
        assert(of_priority(more, priority) =~= (if record.priority == priority {
            of_priority(records, priority).push(record)
        } else {
            of_priority(records, priority)
        }));
    }
}

/// **Weights add up**: every record adds its own, and no records have none.
pub proof fn law_weights_add_up(records: Seq<SrvRecord>, record: SrvRecord)
    ensures
        total_weight(Seq::<SrvRecord>::empty()) == 0,
        total_weight(records.push(record)) == total_weight(records) + record.weight,
    decreases records.len(),
{
    let more = records.push(record);
    if records.len() == 0 {
        assert(more.skip(1) =~= Seq::<SrvRecord>::empty());
        assert(total_weight(more.skip(1)) == 0);
    } else {
        law_weights_add_up(records.skip(1), record);
        assert(more.skip(1) =~= records.skip(1).push(record));
        assert(more[0] == records[0]);
    }
}

/// **There are as many points as the group weighs**, or as it has records where it
/// weighs nothing.
pub proof fn law_points_are_the_weight_of_the_group(records: Seq<SrvRecord>)
    ensures
        total_weight(pool(records)) > 0 ==> points(records) == total_weight(pool(records)),
        total_weight(pool(records)) == 0 ==> points(records) == pool(records).len(),
{
}

/// **Every usable answer is kept, in order**: one more answer adds the service that
/// its data says, unless that is of no use.
pub proof fn law_every_usable_answer_is_kept(answers: Seq<&RData>, answer: &RData)
    ensures
        services(Seq::<&RData>::empty()).len() == 0,
        services(answers.push(answer)) == (match service(*answer) {
            Some(service) => services(answers).push(service),
            None => services(answers),
        }),
{
    assert(answers.push(answer).drop_last() =~= answers);
    assert(answers.push(answer).last() == answer);
}

/// **A service is what SRV data says**: its numbers, and its target without the
/// dots at the end. Other data says none, and a target that is the root makes
/// none.
pub proof fn law_service_is_what_srv_data_says(data: RData)
    ensures
        service(data) == (match srv_data(data) {
            Some((priority, weight, port, target)) => if is_root(target) {
                None
            } else {
                Some(
                    Service { priority, weight, port, target: without_dots(name_text(target)) },
                )
            },
            None => None,
        }),
{
}

/// **Trimming takes exactly the dots at the end**: what is left ends in none, and
/// with dots alone it makes up the text again.
pub proof fn law_dots_at_the_end_are_trimmed(text: Seq<char>)
    ensures
        ({
            let rest = without_dots(text);
            &&& rest.len() <= text.len()
            &&& rest == text.take(rest.len() as int)
            &&& rest.len() > 0 ==> rest.last() != '.'
            &&& forall|i: int| rest.len() <= i < text.len() ==> #[trigger] text[i] == '.'
        }),
    decreases text.len(),
{
    if text.len() > 0 && text.last() == '.' {
        let less = text.drop_last();
        law_dots_at_the_end_are_trimmed(less);
        let rest = without_dots(text);
        assert(less.take(rest.len() as int) =~= text.take(rest.len() as int));
        assert forall|i: int| rest.len() <= i < text.len() implies #[trigger] text[i] == '.' by {
            if i < less.len() {
                assert(less[i] == text[i]);
            }
        }
    } else {
        assert(text.take(text.len() as int) =~= text);
    }
}

/// **A lookup asks for the host's own name under the service, fully qualified**:
/// service and protocol, the host as it is, and one dot at the end, which a host
/// that has it already does not get twice.
pub proof fn law_query_is_fully_qualified(host: Seq<char>)
    ensures
        host.len() > 0 && host.last() == '.' ==> query_name(host) == "_minecraft._tcp."@ + host,
        host.len() == 0 || host.last() != '.' ==> query_name(host) == "_minecraft._tcp."@ + host
            + seq!['.'] && query_name(host) == query_name(host.push('.')),
        query_name(host).last() == '.',
{
    reveal_strlit("_minecraft._tcp.");
    assert("_minecraft._tcp."@ + host + seq!['.'] =~= "_minecraft._tcp."@ + host.push('.'));
}

/// **What a record says is what it holds.**
pub proof fn law_record_says_what_it_holds(record: SrvRecord)
    ensures
        record@ == (Service {
            priority: record.priority,
            weight: record.weight,
            port: record.port,
            target: record.target@,
        }),
{
}

} // verus!

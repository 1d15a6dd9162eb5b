//! Tasks of the remote service, which of them may be done now, and which
//! one comes first.
use vstd::prelude::*;
use crate::date::{
    due_of_text, is_moment_before, lemma_due_wf, local_moment, moment_before, parse_due,
    to_local, LocalClock, Moment,
};
use crate::error::Error;
use crate::text::{
    bytes_of, lemma_bytes_lt_irreflexive, lemma_bytes_lt_total, lemma_bytes_lt_transitive,
    lemma_bytes_of_injective, str_less, str_lt,
};

verus! {

/// When a task is due: the date text as the service sends it, whether the
/// task recurs, and the zone the service names for it, if any.
#[derive(Clone, Debug, PartialEq, Eq)]
pub struct DateInfo {
    pub date: String,
    pub is_recurring: bool,
    pub timezone: Option<String>,
}

/// A task ("item") of the remote service. `priority` runs from 1 to 4, the
/// highest being the most urgent.
#[derive(Clone, Debug, PartialEq, Eq)]
pub struct Item {
    pub id: String,
    pub content: String,
    pub checked: bool,
    pub description: String,
    pub due: Option<DateInfo>,
    pub priority: u8,
    pub is_deleted: bool,
}

/// Where the task's due date falls on the local calendar; `None` for a task
/// without a due date or with one that cannot be read.
pub open spec fn due_moment(item: Item, offset: int) -> Option<Moment> {
    match item.due {
        Some(d) => match due_of_text(d.date@) {
            Some(at) => Some(local_moment(at, offset)),
            None => None,
        },
        None => None,
    }
}

/// The task may be worked on now: it is open, and it has no due date, or it
/// recurs, or its due day is today or earlier in the local zone. A
/// one-off task whose date cannot be read is not shown.
pub open spec fn is_eligible(item: Item, clock: LocalClock) -> bool {
    &&& !item.checked
    &&& !item.is_deleted
    &&& match item.due {
        None => true,
        Some(d) => d.is_recurring || match due_of_text(d.date@) {
            Some(at) => !clock.today.before(local_moment(at, clock.utc_offset as int).date),
            None => false,
        },
    }
}

/// A future due date hides a one-off task but not a recurring one: for an
/// open task whose readable due date falls after today, eligibility is
/// exactly whether it recurs.
pub proof fn lemma_future_due_eligibility(item: Item, clock: LocalClock)
    requires
        !item.checked,
        !item.is_deleted,
        item.due is Some,
        due_of_text(item.due->0.date@) is Some,
        clock.today.before(
            local_moment(due_of_text(item.due->0.date@)->0, clock.utc_offset as int).date,
        ),
    ensures
        is_eligible(item, clock) == item.due->0.is_recurring,
{
}

/// No zone is configured, and some task has a due date that names none.
pub open spec fn needs_timezone(items: Seq<Item>, timezone: Option<String>) -> bool {
    &&& timezone is None
    &&& exists|i: int|
        0 <= i < items.len() && (#[trigger] items[i]).due is Some && items[i].due->0.timezone is None
}

/// A dated task before an undated one; dated ones by their moment.
pub open spec fn due_before(x: Option<Moment>, y: Option<Moment>) -> bool {
    match (x, y) {
        (Some(p), Some(q)) => moment_before(p, q),
        (Some(_), None) => true,
        _ => false,
    }
}

/// Urgency order: higher priority first, then the earlier due date (undated
/// last), then the smaller id.
pub open spec fn ranks_before(a: Item, b: Item, offset: int) -> bool {
    ||| a.priority > b.priority
    ||| a.priority == b.priority && due_before(due_moment(a, offset), due_moment(b, offset))
    ||| a.priority == b.priority && due_moment(a, offset) == due_moment(b, offset) && str_lt(
        a.id@,
        b.id@,
    )
}

/// The two tasks hold the same place in the urgency order.
pub open spec fn same_rank(a: Item, b: Item, offset: int) -> bool {
    &&& a.priority == b.priority
    &&& due_moment(a, offset) == due_moment(b, offset)
    &&& bytes_of(a.id@) == bytes_of(b.id@)
}

/// The urgency order is a strict total order: it is irreflexive,
/// asymmetric and transitive, two tasks that neither precedes hold the same
/// place, and tasks with different ids are always ordered one way or the
/// other.
pub proof fn lemma_rank_total_order(a: Item, b: Item, c: Item, offset: int)
    ensures
        !ranks_before(a, a, offset),
        !(ranks_before(a, b, offset) && ranks_before(b, a, offset)),
        ranks_before(a, b, offset) && ranks_before(b, c, offset) ==> ranks_before(a, c, offset),
        !ranks_before(a, b, offset) && !ranks_before(b, a, offset) ==> same_rank(a, b, offset),
        a.id@ != b.id@ ==> ranks_before(a, b, offset) || ranks_before(b, a, offset),
{
    lemma_bytes_lt_irreflexive(bytes_of(a.id@));
    lemma_bytes_lt_total(bytes_of(a.id@), bytes_of(b.id@));
    lemma_bytes_of_injective(a.id@, b.id@);
    if ranks_before(a, b, offset) && ranks_before(b, c, offset) && str_lt(a.id@, b.id@)
        && str_lt(b.id@, c.id@) {
        lemma_bytes_lt_transitive(bytes_of(a.id@), bytes_of(b.id@), bytes_of(c.id@));
    }
}

/// `s[i]` is the task to show: it is eligible, it ranks before every
/// eligible task ahead of it in the list, and no eligible task after it
/// ranks before it.
pub open spec fn is_top(s: Seq<Item>, i: int, clock: LocalClock) -> bool {
    &&& 0 <= i < s.len()
    &&& is_eligible(s[i], clock)
    &&& forall|j: int|
        0 <= j < s.len() && j != i && is_eligible(#[trigger] s[j], clock) ==> if j < i {
            ranks_before(s[i], s[j], clock.utc_offset as int)
        } else {
            !ranks_before(s[j], s[i], clock.utc_offset as int)
        }
}

pub open spec fn has_eligible(s: Seq<Item>, clock: LocalClock) -> bool {
    exists|j: int| 0 <= j < s.len() && is_eligible(#[trigger] s[j], clock)
}

/// The position of the task to show, if any task is eligible.
pub open spec fn top_index(s: Seq<Item>, clock: LocalClock) -> Option<int> {
    if exists|i: int| is_top(s, i, clock) {
        Some(choose|i: int| is_top(s, i, clock))
    } else {
        None
    }
}

/// At most one position is the top.
pub proof fn lemma_top_unique(s: Seq<Item>, i: int, k: int, clock: LocalClock)
    requires
        is_top(s, i, clock),
        is_top(s, k, clock),
    ensures
        i == k,
{
    if i < k {
        assert(is_eligible(s[k], clock));
        assert(is_eligible(s[i], clock));
    } else if k < i {
        assert(is_eligible(s[k], clock));
        assert(is_eligible(s[i], clock));
    }
}

impl Item {
    /// The due date placed on the local calendar of `clock`'s zone.
    pub fn due_moment(&self, clock: &LocalClock) -> (r: Option<Moment>)
        requires
            clock.wf(),
        ensures
            r == due_moment(*self, clock.utc_offset as int),
    {
        match &self.due {
            Some(d) => match parse_due(d.date.as_str()) {
                Some(at) => {
                    proof {
                        lemma_due_wf(bytes_of(d.date@));
                    }
                    Some(to_local(&at, clock))
                },
                None => None,
            },
            None => None,
        }
    }

    pub fn is_eligible(&self, clock: &LocalClock) -> (r: bool)
        requires
            clock.wf(),
        ensures
            r == is_eligible(*self, *clock),
    {
        if self.checked || self.is_deleted {
            return false;
        }
        match &self.due {
            None => true,
            Some(d) => {
                if d.is_recurring {
                    true
                } else {
                    match self.due_moment(clock) {
                        Some(m) => !clock.today.is_before(&m.date),
                        None => false,
                    }
                }
            },
        }
    }

    /// The text shown for the task: its title, its description on a line of
    /// its own where there is one, and its due date where it has one.
    pub fn fmt(&self) -> (r: String)
        ensures
            r@ == item_text(*self),
    {
        let mut out = self.content.clone();
        if !self.description.as_str().is_empty() {
            out.append("\n");
            out.append(self.description.as_str());
        }
        match &self.due {
            Some(d) => {
                out.append("\nDue: ");
                out.append(d.date.as_str());
                if d.is_recurring {
                    out.append(" (recurring)");
                }
            },
            None => {},
        }
        proof {
            reveal_strlit("\n");
            reveal_strlit("\nDue: ");
            reveal_strlit(" (recurring)");
            vstd::utf8::encode_utf8_decode_utf8(self.description@);
        }
        out
    }
}

pub open spec fn item_text(item: Item) -> Seq<char> {
    item.content@ + (if item.description@.len() > 0 {
        "\n"@ + item.description@
    } else {
        Seq::empty()
    }) + match item.due {
        Some(d) => "\nDue: "@ + d.date@ + if d.is_recurring {
            " (recurring)"@
        } else {
            Seq::empty()
        },
        None => Seq::empty(),
    }
}

fn same_moment(x: &Option<Moment>, y: &Option<Moment>) -> (r: bool)
    ensures
        r == (*x == *y),
{
    match (x, y) {
        (None, None) => true,
        (Some(p), Some(q)) => p.date == q.date && match (p.seconds, q.seconds) {
            (None, None) => true,
            (Some(s), Some(t)) => s == t,
            _ => false,
        },
        _ => false,
    }
}

/// `a` comes before `b` in the urgency order.
pub fn comes_before(a: &Item, b: &Item, clock: &LocalClock) -> (r: bool)
    requires
        clock.wf(),
    ensures
        r == ranks_before(*a, *b, clock.utc_offset as int),
{
    if a.priority != b.priority {
        return a.priority > b.priority;
    }
    let x = a.due_moment(clock);
    let y = b.due_moment(clock);
    let earlier = match (&x, &y) {
        (Some(p), Some(q)) => is_moment_before(p, q),
        (Some(_), None) => true,
        _ => false,
    };
    earlier || (same_moment(&x, &y) && str_less(a.id.as_str(), b.id.as_str()))
}

/// The position of the task to show: the eligible task that ranks first,
/// the earliest in the list among tasks of the same rank.
pub fn select(items: &Vec<Item>, clock: &LocalClock) -> (r: Option<usize>)
    requires
        clock.wf(),
    ensures
        r matches Some(i) ==> is_top(items@, i as int, *clock),
        r is None <==> !has_eligible(items@, *clock),
{
    let ghost off = clock.utc_offset as int;
    let mut best: Option<usize> = None;
    let mut i: usize = 0;
    while i < items.len()
        invariant
            i <= items@.len(),
            off == clock.utc_offset as int,
            clock.wf(),
            best is None ==> forall|j: int| 0 <= j < i ==> !is_eligible(#[trigger] items@[j], *clock),
            best matches Some(k) ==> {
                &&& k < i
                &&& is_eligible(items@[k as int], *clock)
                &&& forall|j: int|
                    0 <= j < i && j != k && is_eligible(#[trigger] items@[j], *clock) ==> if j
                        < k {
                        ranks_before(items@[k as int], items@[j], off)
                    } else {
                        !ranks_before(items@[j], items@[k as int], off)
                    }
            },
        decreases items@.len() - i,
    {
        let item = &items[i];
        if item.is_eligible(clock) {
            match best {
                None => {
                    best = Some(i);
                },
                Some(k) => {
                    if comes_before(item, &items[k], clock) {
                        proof {
                            assert forall|j: int|
                                0 <= j < i + 1 && j != i && is_eligible(
                                    #[trigger] items@[j],
                                    *clock,
                                ) implies ranks_before(items@[i as int], items@[j], off) by {
                                if j != k {
                                    lemma_rank_total_order(
                                        items@[i as int],
                                        items@[k as int],
                                        items@[j],
                                        off,
                                    );
                                    lemma_rank_total_order(
                                        items@[j],
                                        items@[k as int],
                                        items@[i as int],
                                        off,
                                    );
                                    lemma_rank_total_order(
                                        items@[k as int],
                                        items@[j],
                                        items@[i as int],
                                        off,
                                    );
                                }
                            }
                        }
                        best = Some(i);
                    }
                },
            }
        }
        i = i + 1;
    }
    proof {
        if best is None {
            assert forall|j: int| 0 <= j < items@.len() implies !is_eligible(
                #[trigger] items@[j],
                *clock,
            ) by {}
        }
    }
    best
}


/// Some task has a due date naming no zone, and `timezone` is `None`.
pub fn needs_zone(items: &Vec<Item>, timezone: &Option<String>) -> (r: bool)
    ensures
        r == needs_timezone(items@, *timezone),
{
    if let Some(_) = timezone {
        return false;
    }
    let mut i: usize = 0;
    while i < items.len()
        invariant
            i <= items@.len(),
            *timezone is None,
            forall|j: int|
                0 <= j < i ==> !((#[trigger] items@[j]).due is Some && items@[j].due->0.timezone is None),
        decreases items@.len() - i,
    {
        match &items[i].due {
            Some(d) => {
                if d.timezone.is_none() {
                    assert(items@[i as int].due->0.timezone is None);
                    return true;
                }
            },
            None => {},
        }
        i = i + 1;
    }
    false
}

/// The eligible tasks, in their order. Fails with `MissingTimezone` exactly
/// when a dated task names no zone and none is configured.
pub fn filter_not_in_future(items: Vec<Item>, timezone: &Option<String>, clock: &LocalClock) -> (r:
    Result<Vec<Item>, Error>)
    requires
        clock.wf(),
    ensures
        needs_timezone(items@, *timezone) ==> r == Err::<Vec<Item>, Error>(Error::MissingTimezone),
        !needs_timezone(items@, *timezone) ==> (r matches Ok(v) && v@ == items@.filter(
            |t: Item| is_eligible(t, *clock),
        )),
{
    if needs_zone(&items, timezone) {
        return Err(Error::MissingTimezone);
    }
    let ghost orig = items@;
    let ghost f = |t: Item| is_eligible(t, *clock);
    let mut rest = items;
    let mut out: Vec<Item> = Vec::new();
    assert(orig.take(0).filter(f) =~= Seq::<Item>::empty());
    assert(orig.skip(0) =~= orig);
    while rest.len() > 0
        invariant
            clock.wf(),
            f == (|t: Item| is_eligible(t, *clock)),
            rest@.len() <= orig.len(),
            rest@ == orig.skip(orig.len() - rest@.len()),
            out@ == orig.take(orig.len() - rest@.len()).filter(f),
        decreases rest@.len(),
    {
        let ghost k = orig.len() - rest@.len();
        let item = rest.remove(0);
        assert(item == orig[k]);
        assert(orig.take(k + 1).drop_last() =~= orig.take(k));
        assert(rest@ =~= orig.skip(k + 1));
        assert(orig.take(k + 1).last() == orig[k]);
        assert(f(orig[k]) == is_eligible(orig[k], *clock));
        let ghost before = out@;
        proof {
            reveal(Seq::filter);
        }
        if item.is_eligible(clock) {
            out.push(item);
        }
        assert(orig.take(k + 1).filter(f) == (if f(orig[k]) {
            before.push(orig[k])
        } else {
            before
        }));
    }
    assert(orig.take(orig.len() as int) =~= orig);
    Ok(out)
}

/// The task belongs in the day's schedule: it is open and due today, in the
/// local zone, at a set time.
pub open spec fn is_scheduled_today(item: Item, clock: LocalClock) -> bool {
    &&& !item.checked
    &&& !item.is_deleted
    &&& due_moment(item, clock.utc_offset as int) matches Some(m)
    &&& m.date == clock.today
    &&& m.seconds is Some
}

pub fn scheduled_today(item: &Item, clock: &LocalClock) -> (r: bool)
    requires
        clock.wf(),
    ensures
        r == is_scheduled_today(*item, *clock),
{
    if item.checked || item.is_deleted {
        return false;
    }
    match item.due_moment(clock) {
        Some(m) => m.date == clock.today && m.seconds.is_some(),
        None => false,
    }
}

/// Each task in `s` is scheduled today, and their times never decrease.
pub open spec fn sorted_schedule(s: Seq<Item>, clock: LocalClock) -> bool {
    &&& forall|k: int| 0 <= k < s.len() ==> is_scheduled_today(#[trigger] s[k], clock)
    &&& forall|i: int, j: int|
        0 <= i < j < s.len() ==> !moment_before(
            due_moment(#[trigger] s[j], clock.utc_offset as int)->0,
            due_moment(#[trigger] s[i], clock.utc_offset as int)->0,
        )
}

/// Puts `item` into the schedule after every task due no later than it.
fn insert_by_time(out: &mut Vec<Item>, item: Item, clock: &LocalClock)
    requires
        clock.wf(),
        sorted_schedule(old(out)@, *clock),
        is_scheduled_today(item, *clock),
    ensures
        sorted_schedule(final(out)@, *clock),
        final(out)@.to_multiset() == old(out)@.to_multiset().insert(item),
{
    broadcast use vstd::seq_lib::to_multiset_insert;

    let ghost off = clock.utc_offset as int;
    let m = item.due_moment(clock).unwrap();
    let mut p: usize = 0;
    while p < out.len() && !is_moment_before(&m, &out[p].due_moment(clock).unwrap())
        invariant
            clock.wf(),
            off == clock.utc_offset as int,
            p <= out@.len(),
            sorted_schedule(out@, *clock),
            forall|q: int| 0 <= q < p ==> !moment_before(m, due_moment(#[trigger] out@[q], off)->0),
        decreases out@.len() - p,
    {
        p = p + 1;
    }
    let ghost old_out = out@;
    out.insert(p, item);
    proof {
        assert forall|i: int, j: int| 0 <= i < j < out@.len() implies !moment_before(
            due_moment(#[trigger] out@[j], off)->0,
            due_moment(#[trigger] out@[i], off)->0,
        ) by {
            if j == p {
                assert(out@[i] == old_out[i]);
            } else if i == p {
                assert(out@[j] == old_out[j - 1]);
                assert(moment_before(m, due_moment(old_out[p as int], off)->0));
                if j - 1 > p {
                    assert(!moment_before(
                        due_moment(old_out[j - 1], off)->0,
                        due_moment(old_out[p as int], off)->0,
                    ));
                }
            } else if i < p && j < p {
                assert(out@[i] == old_out[i]);
                assert(out@[j] == old_out[j]);
            } else if i < p {
                assert(out@[i] == old_out[i]);
                assert(out@[j] == old_out[j - 1]);
            } else {
                assert(out@[i] == old_out[i - 1]);
                assert(out@[j] == old_out[j - 1]);
            }
        }
        assert forall|q: int| 0 <= q < out@.len() implies is_scheduled_today(
            #[trigger] out@[q],
            *clock,
        ) by {
            if q < p {
                assert(out@[q] == old_out[q]);
            } else if q > p {
                assert(out@[q] == old_out[q - 1]);
            }
        }
    }
}

/// The day's schedule: the tasks due today at a set time, earliest first.
/// Fails with `MissingTimezone` as `filter_not_in_future` does.
pub fn scheduled(items: Vec<Item>, timezone: &Option<String>, clock: &LocalClock) -> (r: Result<
    Vec<Item>,
    Error,
>)
    requires
        clock.wf(),
    ensures
        needs_timezone(items@, *timezone) ==> r == Err::<Vec<Item>, Error>(Error::MissingTimezone),
        !needs_timezone(items@, *timezone) ==> (r matches Ok(v) && v@.to_multiset() == items@.filter(
            |t: Item| is_scheduled_today(t, *clock),
        ).to_multiset() && sorted_schedule(v@, *clock)),
{
    if needs_zone(&items, timezone) {
        return Err(Error::MissingTimezone);
    }
    let ghost orig = items@;
    let ghost f = |t: Item| is_scheduled_today(t, *clock);
    let mut rest = items;
    let mut out: Vec<Item> = Vec::new();
    assert(orig.take(0).filter(f) =~= Seq::<Item>::empty());
    assert(orig.skip(0) =~= orig);
    while rest.len() > 0
        invariant
            clock.wf(),
            f == (|t: Item| is_scheduled_today(t, *clock)),
            rest@.len() <= orig.len(),
            rest@ == orig.skip(orig.len() - rest@.len()),
            out@.to_multiset() == orig.take(orig.len() - rest@.len()).filter(f).to_multiset(),
            sorted_schedule(out@, *clock),
        decreases rest@.len(),
    {
        let ghost k = orig.len() - rest@.len();
        let item = rest.remove(0);
        assert(item == orig[k]);
        assert(orig.take(k + 1).drop_last() =~= orig.take(k));
        assert(rest@ =~= orig.skip(k + 1));
        assert(orig.take(k + 1).last() == orig[k]);
        assert(f(orig[k]) == is_scheduled_today(orig[k], *clock));
        proof {
            reveal(Seq::filter);
        }
        let ghost before = orig.take(k).filter(f);
        assert(orig.take(k + 1).filter(f) == (if f(orig[k]) {
            before.push(orig[k])
        } else {
            before
        }));
        if scheduled_today(&item, clock) {
            proof {
                vstd::seq_lib::to_multiset_build(before, orig[k]);
            }
            insert_by_time(&mut out, item, clock);
        }
    }
    assert(orig.take(orig.len() as int) =~= orig);
    Ok(out)
}

} // verus!

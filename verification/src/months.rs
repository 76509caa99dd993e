//! Events grouped by the month in which they end.
use crate::model::Event;
use crate::number::{digit, four_digits, push_four_digits, push_two_digits, two_digits};
use crate::text::chars_of;
use std::collections::BTreeMap;
use vstd::prelude::*;
use vstd::std_specs::btree::increasing_seq;
use vstd::std_specs::cmp::OrdSpec;
use vstd::std_specs::iter::IteratorSpec;

verus! {

/// Whether the periods of `periods` grow from each to the next.
pub open spec fn growing(periods: Seq<u32>) -> bool {
    forall|i: int, j: int| 0 <= i < j < periods.len() ==> periods[i] < periods[j]
}

/// Whether `periods` lists the periods of `months`, each once, in growing
/// order.
pub open spec fn lists(months: Map<u32, Seq<Event>>, periods: Seq<u32>) -> bool {
    growing(periods) && periods.to_set() == months.dom()
}

/// The periods of `months` in growing order.
pub open spec fn ordered_periods(months: Map<u32, Seq<Event>>) -> Seq<u32> {
    choose|periods: Seq<u32>| lists(months, periods)
}

/// The events that `months` holds under the periods of `periods`, period
/// by period.
pub open spec fn events_under(months: Map<u32, Seq<Event>>, periods: Seq<u32>) -> Seq<Event>
    decreases periods.len(),
{
    if periods.len() == 0 {
        Seq::empty()
    } else {
        events_under(months, periods.drop_last()) + months[periods.last()]
    }
}

/// All events of `months`, by growing period and within a period in their
/// order.
pub open spec fn events_of(months: Map<u32, Seq<Event>>) -> Seq<Event> {
    events_under(months, ordered_periods(months))
}

/// Two growing lists of the same periods are one list.
pub proof fn lemma_growing_lists_agree(first: Seq<u32>, second: Seq<u32>)
    requires
        growing(first),
        growing(second),
        first.to_set() == second.to_set(),
    ensures
        first == second,
    decreases first.len(),
{
    if first.len() == 0 {
        if second.len() > 0 {
            assert(second.to_set().contains(second[0]));
            assert(first.to_set().contains(second[0]));
        }
        assert(first =~= second);
    } else {
        let top = first.last();
        assert(first.to_set().contains(top));
        assert(second.to_set().contains(top));
        assert(second.len() > 0);
        let other = second.last();
        assert(second.to_set().contains(other));
        assert(first.to_set().contains(other));
        let i = choose|i: int| 0 <= i < first.len() && first[i] == other;
        let j = choose|j: int| 0 <= j < second.len() && second[j] == top;
        assert(other <= top) by {
            if i < first.len() - 1 {
                assert(first[i] < first[first.len() - 1]);
            }
        }
        assert(top <= other) by {
            if j < second.len() - 1 {
                assert(second[j] < second[second.len() - 1]);
            }
        }
        let shorter = first.drop_last();
        let others = second.drop_last();
        assert forall|period: u32| shorter.to_set().contains(period) <==> others.to_set().contains(
            period,
        ) by {
            if shorter.to_set().contains(period) {
                let a = choose|a: int| 0 <= a < shorter.len() && shorter[a] == period;
                assert(first[a] == period);
                assert(first[a] < first[first.len() - 1]);
                assert(first.to_set().contains(period));
                assert(second.to_set().contains(period));
                let b = choose|b: int| 0 <= b < second.len() && second[b] == period;
                assert(b < second.len() - 1);
                assert(others[b] == period);
            }
            if others.to_set().contains(period) {
                let b = choose|b: int| 0 <= b < others.len() && others[b] == period;
                assert(second[b] == period);
                assert(second[b] < second[second.len() - 1]);
                assert(second.to_set().contains(period));
                assert(first.to_set().contains(period));
                let a = choose|a: int| 0 <= a < first.len() && first[a] == period;
                assert(a < first.len() - 1);
                assert(shorter[a] == period);
            }
        }
        assert(shorter.to_set() =~= others.to_set());
        lemma_growing_lists_agree(shorter, others);
        assert(first =~= shorter.push(top));
        assert(second =~= others.push(other));
    }
}

/// A growing list of the periods of `months` is the list of its periods in
/// growing order.
pub proof fn lemma_ordered_periods(months: Map<u32, Seq<Event>>, periods: Seq<u32>)
    requires
        lists(months, periods),
    ensures
        ordered_periods(months) == periods,
{
    lemma_growing_lists_agree(ordered_periods(months), periods);
}

/// The events of months with one period are the events of that period.
pub proof fn lemma_events_of_one_period(period: u32, events: Seq<Event>)
    ensures
        events_of(Map::<u32, Seq<Event>>::empty().insert(period, events)) == events,
{
    let months = Map::<u32, Seq<Event>>::empty().insert(period, events);
    let periods = seq![period];
    assert(periods.to_set() =~= months.dom()) by {
        assert forall|k: u32| periods.to_set().contains(k) <==> months.dom().contains(k) by {
            if k == period {
                assert(periods[0] == k);
            }
        }
    }
    lemma_ordered_periods(months, periods);
    assert(periods.drop_last() =~= Seq::<u32>::empty());
    assert(events_under(months, periods) =~= events) by {
        reveal_with_fuel(events_under, 2);
    }
}

/// A period as six digits, `YYYYMM`.
pub open spec fn period_text(period: u32) -> Seq<char> {
    four_digits((period / 100) as nat) + two_digits(period as nat)
}

/// Writes a period as six digits, `YYYYMM`.
pub fn period_label(period: u32) -> (label: String)
    ensures
        label@ == period_text(period),
{
    let mut label = String::new();
    push_four_digits(&mut label, (period / 100) as u64);
    push_two_digits(&mut label, period as u64);
    assert(label@ =~= period_text(period));
    label
}

/// Reads one digit.
fn read_digit(c: char) -> (value: Option<u32>)
    ensures
        match value {
            Some(d) => d < 10 && c == digit(d as int),
            None => forall|d: int| c != digit(d),
        },
{
    if c == '0' {
        Some(0)
    } else if c == '1' {
        Some(1)
    } else if c == '2' {
        Some(2)
    } else if c == '3' {
        Some(3)
    } else if c == '4' {
        Some(4)
    } else if c == '5' {
        Some(5)
    } else if c == '6' {
        Some(6)
    } else if c == '7' {
        Some(7)
    } else if c == '8' {
        Some(8)
    } else if c == '9' {
        Some(9)
    } else {
        None
    }
}

/// Whether `c` is a digit.
pub open spec fn holds_digit(c: char) -> bool {
    exists|d: int| c == digit(d)
}

/// A period is written as six digits.
proof fn lemma_period_text_holds_digits(period: u32)
    ensures
        period_text(period).len() == 6,
        forall|i: int| 0 <= i < 6 ==> holds_digit(#[trigger] period_text(period)[i]),
{
    let text = period_text(period);
    assert(text.len() == 6);
    assert(text[0] == digit((period / 100 / 100 / 10 % 10) as int));
    assert(text[1] == digit((period / 100 / 100 % 10) as int));
    assert(text[2] == digit((period / 100 / 10 % 10) as int));
    assert(text[3] == digit((period / 100 % 10) as int));
    assert(text[4] == digit((period / 10 % 10) as int));
    assert(text[5] == digit((period % 10) as int));
}

/// The period that six digits write is written as those six digits.
proof fn lemma_period_text_of_digits(a: int, b: int, c: int, d: int, e: int, f: int)
    requires
        0 <= a < 10,
        0 <= b < 10,
        0 <= c < 10,
        0 <= d < 10,
        0 <= e < 10,
        0 <= f < 10,
    ensures
        period_text((a * 100000 + b * 10000 + c * 1000 + d * 100 + e * 10 + f) as u32) == seq![
            digit(a),
            digit(b),
            digit(c),
            digit(d),
            digit(e),
            digit(f),
        ],
{
    let value = a * 100000 + b * 10000 + c * 1000 + d * 100 + e * 10 + f;
    let hundreds = a * 1000 + b * 100 + c * 10 + d;
    assert(value / 100 == hundreds);
    assert(value % 10 == f);
    assert(value / 10 == hundreds * 10 + e);
    assert(value / 10 % 10 == e);
    assert(hundreds % 10 == d);
    assert(hundreds / 10 == a * 100 + b * 10 + c);
    assert(hundreds / 10 % 10 == c);
    assert(hundreds / 100 == a * 10 + b);
    assert(hundreds / 100 % 10 == b);
    assert(hundreds / 100 / 10 == a);
    assert(period_text(value as u32) =~= seq![
        digit(a),
        digit(b),
        digit(c),
        digit(d),
        digit(e),
        digit(f),
    ]);
}

/// Reads the digit at the place `i` of a text of six characters.
fn digit_at(chars: &Vec<char>, i: usize) -> (value: Option<u32>)
    requires
        i < chars.len(),
    ensures
        match value {
            Some(d) => d < 10 && chars@[i as int] == digit(d as int),
            None => !holds_digit(chars@[i as int]),
        },
{
    read_digit(chars[i])
}

/// Reads a period that is written as six digits, `YYYYMM`: the inverse of
/// `period_label`. Any other text is no period.
pub fn period_from_label(label: &str) -> (period: Option<u32>)
    ensures
        match period {
            Some(p) => p <= 999999 && label@ == period_text(p),
            None => forall|p: u32| p <= 999999 ==> label@ != period_text(p),
        },
{
    let chars = chars_of(label);
    proof {
        assert forall|p: u32| true implies period_text(p).len() == 6 && forall|i: int|
            0 <= i < 6 ==> holds_digit(#[trigger] period_text(p)[i]) by {
            lemma_period_text_holds_digits(p);
        }
    }
    if chars.len() != 6 {
        return None;
    }
    let (a, b, c, d, e, f) = match (
        digit_at(&chars, 0),
        digit_at(&chars, 1),
        digit_at(&chars, 2),
        digit_at(&chars, 3),
        digit_at(&chars, 4),
        digit_at(&chars, 5),
    ) {
        (Some(a), Some(b), Some(c), Some(d), Some(e), Some(f)) => (a, b, c, d, e, f),
        _ => {
            return None;
        },
    };
    let value: u32 = a * 100000 + b * 10000 + c * 1000 + d * 100 + e * 10 + f;
    proof {
        lemma_period_text_of_digits(a as int, b as int, c as int, d as int, e as int, f as int);
        assert(chars@ =~= seq![
            digit(a as int),
            digit(b as int),
            digit(c as int),
            digit(d as int),
            digit(e as int),
            digit(f as int),
        ]);
    }
    Some(value)
}


/// The events of each period as sequences.
pub open spec fn sequences(entries: Map<u32, Vec<Event>>) -> Map<u32, Seq<Event>> {
    entries.map_values(|events: Vec<Event>| events@)
}

/// Periods that a map hands out in its own order grow.
proof fn lemma_handed_out_periods_grow(periods: Seq<u32>)
    requires
        increasing_seq(periods),
    ensures
        growing(periods),
{
    broadcast use vstd::laws_cmp::group_laws_cmp;
    broadcast use vstd::std_specs::btree::group_btree_axioms;

    assert forall|i: int, j: int| 0 <= i < j < periods.len() implies periods[i] < periods[j] by {
        assert(periods[i].cmp_spec(&periods[j]) is Less);
    }
}

/// The periods of `entries`, in growing order.
fn periods_of(entries: &BTreeMap<u32, Vec<Event>>) -> (periods: Vec<u32>)
    ensures
        lists(sequences(entries@), periods@),
        periods@ == ordered_periods(sequences(entries@)),
{
    let mut periods: Vec<u32> = Vec::new();
    let pairs = entries.iter();
    let ghost all = pairs.remaining();
    let ghost keys = all.map_values(|pair: (&u32, &Vec<Event>)| *pair.0);
    proof {
        lemma_handed_out_periods_grow(keys);
        assert forall|k: u32| keys.to_set().contains(k) <==> entries@.dom().contains(k) by {
            if entries@.contains_key(k) {
                assert(all.contains((&k, &entries@[k])));
                let i = choose|i: int| 0 <= i < all.len() && all[i] == (&k, &entries@[k]);
                assert(keys[i] == k);
            }
            if keys.to_set().contains(k) {
                let i = choose|i: int| 0 <= i < keys.len() && keys[i] == k;
                assert(entries@.contains_key(*all[i].0));
            }
        }
        assert(keys.to_set() =~= sequences(entries@).dom());
        lemma_ordered_periods(sequences(entries@), keys);
    }
    for pair in it: pairs
        invariant
            it.seq() == all,
            keys == all.map_values(|pair: (&u32, &Vec<Event>)| *pair.0),
            periods@ == keys.subrange(0, it.index() as int),
    {
        periods.push(*pair.0);
    }
    assert(periods@ =~= keys);
    periods
}

/// Events by the period in which they end.
#[derive(Debug, PartialEq, Eq)]
pub struct Months {
    entries: BTreeMap<u32, Vec<Event>>,
}

impl View for Months {
    type V = Map<u32, Seq<Event>>;

    closed spec fn view(&self) -> Map<u32, Seq<Event>> {
        sequences(self.entries@)
    }
}

impl Months {
    /// All events, by growing period and within a period in their order.
    pub open spec fn events(self) -> Seq<Event> {
        events_of(self@)
    }

    /// No periods.
    pub fn new() -> (months: Months)
        ensures
            months@ == Map::<u32, Seq<Event>>::empty(),
    {
        let months = Months { entries: BTreeMap::new() };
        assert(months@ =~= Map::<u32, Seq<Event>>::empty());
        months
    }

    /// Puts `events` under `period`, in place of what was there.
    pub fn insert(self, period: u32, events: Vec<Event>) -> (months: Months)
        ensures
            months@ == self@.insert(period, events@),
    {
        let mut entries = self.entries;
        let ghost before = entries@;
        entries.insert(period, events);
        assert(sequences(entries@) =~= sequences(before).insert(period, events@));
        Months { entries }
    }

    /// The number of periods.
    pub fn len(&self) -> (count: usize)
        ensures
            count == self@.dom().len(),
            count == ordered_periods(self@).len(),
    {
        let periods = periods_of(&self.entries);
        proof {
            assert(sequences(self.entries@).dom() =~= self.entries@.dom());
            periods@.unique_seq_to_set();
        }
        periods.len()
    }

    /// The events under `period`, where there are any.
    pub fn get(&self, period: u32) -> (found: Option<&Vec<Event>>)
        ensures
            match found {
                Some(events) => self@.dom().contains(period) && self@[period] == events@,
                None => !self@.dom().contains(period),
            },
    {
        self.entries.get(&period)
    }

    /// The periods, in growing order.
    pub fn periods(&self) -> (periods: Vec<u32>)
        ensures
            lists(self@, periods@),
            periods@ == ordered_periods(self@),
    {
        periods_of(&self.entries)
    }

    /// All events, by growing period.
    pub fn into_events(self) -> (events: Vec<Event>)
        ensures
            events@ == self.events(),
    {
        let periods = periods_of(&self.entries);
        let ghost all = self@;
        let mut entries = self.entries;
        let mut events: Vec<Event> = Vec::new();
        let mut i: usize = 0;
        assert(periods@.subrange(0, 0) =~= Seq::<u32>::empty());
        assert forall|j: int| 0 <= j < periods@.len() implies entries@.contains_key(
            #[trigger] periods@[j],
        ) && entries@[periods@[j]]@ == all[periods@[j]] by {
            assert(periods@.to_set().contains(periods@[j]));
            assert(all.dom().contains(periods@[j]));
        }
        while i < periods.len()
            invariant
                i <= periods.len(),
                lists(all, periods@),
                forall|j: int|
                    i <= j < periods@.len() ==> entries@.contains_key(#[trigger] periods@[j])
                        && entries@[periods@[j]]@ == all[periods@[j]],
                events@ == events_under(all, periods@.subrange(0, i as int)),
            decreases periods.len() - i,
        {
            let period = periods[i];
            let ghost before = entries@;
            assert(before.contains_key(periods@[i as int]));
            assert(periods@.subrange(0, i + 1).drop_last() =~= periods@.subrange(0, i as int));
            match entries.remove(&period) {
                Some(mut found) => {
                    events.append(&mut found);
                },
                None => {},
            }
            assert forall|j: int| i + 1 <= j < periods@.len() implies entries@.contains_key(
                #[trigger] periods@[j],
            ) && entries@[periods@[j]]@ == all[periods@[j]] by {
                assert(periods@[i as int] < periods@[j]);
                assert(before.contains_key(periods@[j]));
            }
            i += 1;
        }
        assert(periods@.subrange(0, periods.len() as int) =~= periods@);
        events
    }
}

/// Whether `period` is among the first `n` of `periods`.
pub open spec fn among(periods: Seq<u32>, n: int, period: u32) -> bool {
    exists|j: int| 0 <= j < n && j < periods.len() && periods[j] == period
}

/// The periods of `archived` with their events, but for the periods of
/// `fresh`, which have the events that `fresh` gives them.
pub fn merge(fresh: Months, archived: Months) -> (merged: Months)
    ensures
        merged@ == archived@.union_prefer_right(fresh@),
{
    let periods = periods_of(&fresh.entries);
    let ghost new = fresh@;
    let ghost old_map = archived@;
    let mut from = fresh.entries;
    let mut into = archived.entries;
    let mut i: usize = 0;
    assert(sequences(into@) =~= old_map.union_prefer_right(
        new.restrict(Set::new(|period: u32| among(periods@, 0, period))),
    ));
    assert forall|j: int| 0 <= j < periods@.len() implies from@.contains_key(
        #[trigger] periods@[j],
    ) && from@[periods@[j]]@ == new[periods@[j]] by {
        assert(periods@.to_set().contains(periods@[j]));
        assert(new.dom().contains(periods@[j]));
    }
    while i < periods.len()
        invariant
            i <= periods.len(),
            lists(new, periods@),
            forall|j: int|
                i <= j < periods@.len() ==> from@.contains_key(#[trigger] periods@[j])
                    && from@[periods@[j]]@ == new[periods@[j]],
            sequences(into@) == old_map.union_prefer_right(
                new.restrict(Set::new(|period: u32| among(periods@, i as int, period))),
            ),
        decreases periods.len() - i,
    {
        let period = periods[i];
        let ghost from_before = from@;
        let ghost into_before = into@;
        assert(from_before.contains_key(periods@[i as int]));
        let ghost gone = from_before[period];
        match from.remove(&period) {
            Some(found) => {
                assert(found == gone);
                into.insert(period, found);
            },
            None => {},
        }
        assert(into@ == into_before.insert(period, gone));
        assert(sequences(into@) =~= sequences(into_before).insert(period, new[period]));
        proof {
            assert forall|j: int| i + 1 <= j < periods@.len() implies from@.contains_key(
                #[trigger] periods@[j],
            ) && from@[periods@[j]]@ == new[periods@[j]] by {
                assert(periods@[i as int] < periods@[j]);
                assert(from_before.contains_key(periods@[j]));
            }
            let done = Set::new(|k: u32| among(periods@, i as int, k));
            let more = Set::new(|k: u32| among(periods@, i + 1, k));
            assert(periods@.to_set().contains(periods@[i as int]));
            assert forall|k: u32| more.contains(k) <==> done.contains(k) || k == period by {
                if done.contains(k) {
                    let j = choose|j: int| 0 <= j < i && j < periods@.len() && periods@[j] == k;
                    assert(0 <= j < i + 1 && periods@[j] == k);
                }
                if k == period {
                    assert(0 <= i < i + 1 && periods@[i as int] == k);
                }
                if more.contains(k) {
                    let j = choose|j: int|
                        0 <= j < i + 1 && j < periods@.len() && periods@[j] == k;
                    if j < i {
                        assert(among(periods@, i as int, k));
                    }
                }
            }
            assert(sequences(into@) =~= old_map.union_prefer_right(new.restrict(more)));
        }
        i += 1;
    }
    proof {
        let every = Set::new(|k: u32| among(periods@, periods@.len() as int, k));
        assert forall|k: u32| new.dom().contains(k) implies every.contains(k) by {
            assert(periods@.to_set().contains(k));
            let j = choose|j: int| 0 <= j < periods@.len() && periods@[j] == k;
            assert(among(periods@, periods@.len() as int, k));
        }
        assert(new.restrict(every) =~= new);
    }
    Months { entries: into }
}

/// Merging the same fresh months once more changes nothing.
pub proof fn lemma_merge_again(fresh: Map<u32, Seq<Event>>, archived: Map<u32, Seq<Event>>)
    ensures
        archived.union_prefer_right(fresh).union_prefer_right(fresh) == archived.union_prefer_right(
            fresh,
        ),
{
    assert(archived.union_prefer_right(fresh).union_prefer_right(fresh)
        =~= archived.union_prefer_right(fresh));
}

/// After a merge every period of the fresh months has the fresh events,
/// and every other period has what the archive had.
pub proof fn lemma_merge_overwrites(
    fresh: Map<u32, Seq<Event>>,
    archived: Map<u32, Seq<Event>>,
    period: u32,
)
    ensures
        fresh.dom().contains(period) ==> archived.union_prefer_right(fresh)[period]
            == fresh[period],
        !fresh.dom().contains(period) && archived.dom().contains(period)
            ==> archived.union_prefer_right(fresh)[period] == archived[period],
        archived.union_prefer_right(fresh).dom().contains(period) <==> fresh.dom().contains(period)
            || archived.dom().contains(period),
{
}

} // verus!

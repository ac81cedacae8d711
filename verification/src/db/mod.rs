//! The store: the append-only event log plus the projections derived from it.
//! Appending an event and applying it to the projections happen in one step,
//! so a read can never observe a log entry that has not landed in the tables
//! yet.
//!
//! Everything here is synchronous and single-owner -- the bus is the only
//! thing that touches a [`Db`].
pub mod bootstrap;
pub mod migrations;
pub mod projection;
pub mod query;
pub mod script;
pub mod seed;
pub mod tables;
pub mod uuid;

use vstd::prelude::*;

use crate::db::projection::{
    after, appended, apply_projection, derived, distinct_ids, logged, rules, statements,
};
use crate::db::tables::{empty_board, touched, AccountData, Board, StoreError, Tables};
use crate::db::uuid::{carried_millis, carries, uuid_at};
use crate::model::{elapsed_at, now_millis, stamp_of, Event, EventData, EventKind, KindData, Millis, UserId, Uuid};
use crate::seqs::{first, lemma_filter_step, lemma_first, lemma_first_found, lemma_first_pushed};
use crate::text::same;

verus! {

/// How many ids of one sort have been handed out.
#[derive(Debug, PartialEq, Eq)]
pub struct Counter {
    pub name: String,
    pub value: i64,
}

/// A value that is not an event: the ssh host key, the splash.
#[derive(Debug, PartialEq, Eq)]
pub struct Setting {
    pub key: String,
    pub value: Vec<u8>,
}

#[derive(Debug)]
pub struct Db {
    pub tables: Tables,
    pub log: Vec<Event>,
    pub counters: Vec<Counter>,
    pub settings: Vec<Setting>,
}

pub open spec fn counts(name: Seq<char>) -> spec_fn(Counter) -> bool {
    |c: Counter| c.name@ == name
}

pub open spec fn keyed(key: Seq<char>) -> spec_fn(Setting) -> bool {
    |s: Setting| s.key@ == key
}

/// The count that a counter stands at; zero if it was never used.
pub open spec fn count_of(counters: Seq<Counter>, name: Seq<char>) -> i64 {
    match first(counters, counts(name)) {
        Some(c) => c.value,
        None => 0,
    }
}

/// The value of a setting, if it has one.
pub open spec fn value_of(settings: Seq<Setting>, key: Seq<char>) -> Option<Seq<u8>> {
    match first(settings, keyed(key)) {
        Some(s) => Some(s.value@),
        None => None,
    }
}

impl Db {
    /// What always holds: the tables keep the rules of the schema, they are
    /// what the log adds up to, and the log names no event and no message
    /// twice.
    pub open spec fn sound(self) -> bool {
        &&& rules(self.tables@)
        &&& derived(self.tables@, self.log.deep_view())
        &&& distinct_ids(self.tables@, self.log.deep_view())
    }

    /// The same store, but for tables and log.
    pub open spec fn keeps_counts_of(self, other: Db) -> bool {
        &&& self.counters@ == other.counters@
        &&& self.settings@ == other.settings@
    }

    /// An empty store.
    pub fn new() -> (r: Db)
        ensures
            r.tables@ == empty_board(),
            r.log@.len() == 0,
            r.counters@.len() == 0,
            r.settings@.len() == 0,
            r.sound(),
    {
        let r = Db {
            tables: Tables::new(),
            log: Vec::new(),
            counters: Vec::new(),
            settings: Vec::new(),
        };
        proof {
            assert(r.tables@.users.map_values(projection::forgetting())
                =~= Seq::<AccountData>::empty());
        }
        r
    }

    // -- ids ----------------------------------------------------------------

    /// Reserve the next id for one of the integer-keyed entities.
    pub fn allocate(&mut self, counter: &str) -> (r: Result<i64, StoreError>)
        ensures
            final(self).tables == old(self).tables,
            final(self).log == old(self).log,
            final(self).settings == old(self).settings,
            match r {
                Ok(id) => {
                    &&& id == count_of(old(self).counters@, counter@) + 1
                    &&& count_of(final(self).counters@, counter@) == id
                    &&& forall|other: Seq<char>|
                        other != counter@ ==> #[trigger] count_of(final(self).counters@, other)
                            == count_of(old(self).counters@, other)
                },
                Err(e) => {
                    &&& e == StoreError::CounterExhausted
                    &&& count_of(old(self).counters@, counter@) == i64::MAX
                    &&& final(self).counters == old(self).counters
                },
            },
    {
        let ghost before = self.counters@;
        let ghost wanted = counts(counter@);
        let mut i: usize = 0;
        while i < self.counters.len()
            invariant
                i <= self.counters.len(),
                before == self.counters@,
                self == old(self),
                wanted == counts(counter@),
                forall|j: int| 0 <= j < i ==> !wanted(#[trigger] before[j]),
            decreases self.counters.len() - i,
        {
            if same(self.counters[i].name.as_str(), counter) {
                proof {
                    lemma_first(before, wanted, i as int);
                }
                let value = self.counters[i].value;
                if value == i64::MAX {
                    return Err(StoreError::CounterExhausted);
                }
                let row = Counter { name: self.counters[i].name.clone(), value: value + 1 };
                self.counters.set(i, row);
                proof {
                    lemma_counted(before, i as int, row);
                }
                return Ok(value + 1);
            }
            i += 1;
        }
        proof {
            lemma_first(before, wanted, i as int);
        }
        let row = Counter { name: counter.to_owned(), value: 1 };
        self.counters.push(row);
        proof {
            lemma_count_added(before, row);
        }
        Ok(1)
    }

    // -- settings -----------------------------------------------------------

    pub fn setting(&self, key: &str) -> (r: Option<Vec<u8>>)
        ensures
            match r {
                Some(v) => value_of(self.settings@, key@) == Some(v@),
                None => value_of(self.settings@, key@) is None,
            },
    {
        let ghost wanted = keyed(key@);
        let mut i: usize = 0;
        while i < self.settings.len()
            invariant
                i <= self.settings.len(),
                wanted == keyed(key@),
                forall|j: int| 0 <= j < i ==> !wanted(#[trigger] self.settings[j]),
            decreases self.settings.len() - i,
        {
            if same(self.settings[i].key.as_str(), key) {
                proof {
                    lemma_first(self.settings@, wanted, i as int);
                }
                return Some(copy_bytes(&self.settings[i].value));
            }
            i += 1;
        }
        proof {
            lemma_first(self.settings@, wanted, i as int);
        }
        None
    }

    pub fn set_setting(&mut self, key: &str, value: Vec<u8>)
        ensures
            final(self).tables == old(self).tables,
            final(self).log == old(self).log,
            final(self).counters == old(self).counters,
            value_of(final(self).settings@, key@) == Some(value@),
            forall|other: Seq<char>|
                other != key@ ==> #[trigger] value_of(final(self).settings@, other) == value_of(
                    old(self).settings@,
                    other,
                ),
    {
        self.clear_setting(key);
        let ghost before = self.settings@;
        let row = Setting { key: key.to_owned(), value };
        self.settings.push(row);
        proof {
            lemma_setting_added(before, row);
        }
    }

    /// Forget a setting, so that its default is back in force.
    pub fn clear_setting(&mut self, key: &str)
        ensures
            final(self).tables == old(self).tables,
            final(self).log == old(self).log,
            final(self).counters == old(self).counters,
            value_of(final(self).settings@, key@) is None,
            forall|other: Seq<char>|
                other != key@ ==> #[trigger] value_of(final(self).settings@, other) == value_of(
                    old(self).settings@,
                    other,
                ),
    {
        let ghost all = self.settings@;
        let ghost keep = other_key(key@);
        let mut out: Vec<Setting> = Vec::new();
        let mut rows: Vec<Setting> = Vec::new();
        std::mem::swap(&mut rows, &mut self.settings);
        assert(all.take(0).filter(keep) =~= Seq::<Setting>::empty()) by {
            reveal(Seq::filter);
        }
        for s in it: rows
            invariant
                it.seq() == rows@,
                all == rows@,
                keep == other_key(key@),
                out@ == all.take(it.index() as int).filter(keep),
        {
            proof {
                lemma_filter_step(all, keep, it.index() as int);
            }
            if !same(s.key.as_str(), key) {
                out.push(s);
            }
        }
        assert(all.take(all.len() as int) == all);
        self.settings = out;
        proof {
            lemma_settings_kept(all, key@);
        }
    }
}

fn copy_bytes(bytes: &Vec<u8>) -> (r: Vec<u8>)
    ensures
        r@ == bytes@,
{
    let mut out: Vec<u8> = Vec::new();
    out.extend_from_slice(bytes.as_slice());
    out
}

proof fn lemma_counted(before: Seq<Counter>, i: int, row: Counter)
    requires
        0 <= i < before.len(),
        row.name@ == before[i].name@,
        forall|j: int| 0 <= j < i ==> (#[trigger] before[j]).name@ != row.name@,
    ensures
        count_of(before.update(i, row), row.name@) == row.value,
        forall|other: Seq<char>|
            other != row.name@ ==> #[trigger] count_of(before.update(i, row), other) == count_of(
                before,
                other,
            ),
{
    let now = before.update(i, row);
    lemma_first(now, counts(row.name@), i);
    assert forall|other: Seq<char>| other != row.name@ implies #[trigger] count_of(now, other)
        == count_of(before, other) by {
        lemma_first_updated(before, i, row, counts(other));
    }
}

proof fn lemma_first_updated<T>(s: Seq<T>, i: int, x: T, wanted: spec_fn(T) -> bool)
    requires
        0 <= i < s.len(),
        !wanted(s[i]),
        !wanted(x),
    ensures
        first(s.update(i, x), wanted) == first(s, wanted),
    decreases s.len(),
{
    let u = s.update(i, x);
    if i > 0 {
        if !wanted(s[0]) {
            assert(u.drop_first() == s.drop_first().update(i - 1, x));
            lemma_first_updated(s.drop_first(), i - 1, x, wanted);
        }
    } else {
        assert(u.drop_first() == s.drop_first());
    }
}

proof fn lemma_first_kept<T>(s: Seq<T>, keep: spec_fn(T) -> bool, wanted: spec_fn(T) -> bool)
    requires
        forall|x: T| #[trigger] wanted(x) ==> keep(x),
    ensures
        first(s.filter(keep), wanted) == first(s, wanted),
    decreases s.len(),
{
    reveal(Seq::filter);
    if s.len() > 0 {
        lemma_first_kept(s.drop_last(), keep, wanted);
        assert(s == s.drop_last().push(s.last()));
        lemma_first_pushed(s.drop_last(), s.last(), wanted);
        lemma_first_pushed(s.drop_last().filter(keep), s.last(), wanted);
    }
}

proof fn lemma_first_dropped<T>(s: Seq<T>, keep: spec_fn(T) -> bool, wanted: spec_fn(T) -> bool)
    requires
        forall|x: T| #[trigger] wanted(x) ==> !keep(x),
    ensures
        first(s.filter(keep), wanted) is None,
    decreases s.len(),
{
    reveal(Seq::filter);
    if s.len() > 0 {
        lemma_first_dropped(s.drop_last(), keep, wanted);
        lemma_first_pushed(s.drop_last().filter(keep), s.last(), wanted);
    }
}

proof fn lemma_count_added(before: Seq<Counter>, row: Counter)
    requires
        first(before, counts(row.name@)) is None,
    ensures
        count_of(before.push(row), row.name@) == row.value,
        forall|other: Seq<char>|
            other != row.name@ ==> #[trigger] count_of(before.push(row), other) == count_of(
                before,
                other,
            ),
{
    lemma_first_pushed(before, row, counts(row.name@));
    assert forall|other: Seq<char>| other != row.name@ implies #[trigger] count_of(
        before.push(row),
        other,
    ) == count_of(before, other) by {
        lemma_first_pushed(before, row, counts(other));
    }
}

proof fn lemma_setting_added(before: Seq<Setting>, row: Setting)
    requires
        value_of(before, row.key@) is None,
    ensures
        value_of(before.push(row), row.key@) == Some(row.value@),
        forall|other: Seq<char>|
            other != row.key@ ==> #[trigger] value_of(before.push(row), other) == value_of(
                before,
                other,
            ),
{
    lemma_first_pushed(before, row, keyed(row.key@));
    assert forall|other: Seq<char>| other != row.key@ implies #[trigger] value_of(
        before.push(row),
        other,
    ) == value_of(before, other) by {
        lemma_first_pushed(before, row, keyed(other));
    }
}

spec fn other_key(key: Seq<char>) -> spec_fn(Setting) -> bool {
    |s: Setting| s.key@ != key
}

proof fn lemma_settings_kept(all: Seq<Setting>, key: Seq<char>)
    ensures
        value_of(all.filter(other_key(key)), key) is None,
        forall|other: Seq<char>|
            other != key ==> #[trigger] value_of(all.filter(other_key(key)), other) == value_of(
                all,
                other,
            ),
{
    let keep = other_key(key);
    lemma_first_dropped(all, keep, keyed(key));
    assert forall|other: Seq<char>| other != key implies #[trigger] value_of(
        all.filter(keep),
        other,
    ) == value_of(all, other) by {
        lemma_first_kept(all, keep, keyed(other));
    }
}

// ---------------------------------------------------------------------------
// writing
// ---------------------------------------------------------------------------

/// Whether `e` is the event that committing `kind` at `at` makes. Its id
/// carries the time; the rest of it is random.
pub open spec fn stamped_event(
    e: EventData,
    actor: Option<UserId>,
    kind: KindData,
    at: Millis,
) -> bool {
    &&& e.at == at
    &&& e.actor == actor
    &&& e.kind == kind
    &&& carries(e.id.bits, carried_millis(at))
}

/// What committing an event at `at` makes of the store. Which id it gets is
/// left to chance; with that id, it is appended or refused as [`appended`]
/// says.
pub open spec fn committed(
    before: Db,
    actor: Option<UserId>,
    kind: KindData,
    at: Millis,
    r: Result<Event, StoreError>,
    now: Db,
) -> bool {
    &&& now.keeps_counts_of(before)
    &&& match r {
        Ok(event) => {
            &&& stamped_event(event.deep_view(), actor, kind, at)
            &&& appended(before.tables@, before.log.deep_view(), event.deep_view()) == Ok::<
                Board,
                StoreError,
            >(now.tables@)
            &&& now.log@ == before.log@.push(event)
        },
        Err(refused) => {
            &&& now.tables@ == before.tables@
            &&& now.log@ == before.log@
            &&& exists|e: EventData|
                {
                    &&& #[trigger] stamped_event(e, actor, kind, at)
                    &&& appended(before.tables@, before.log.deep_view(), e) == Err::<
                        Board,
                        StoreError,
                    >(refused)
                }
        },
    }
}

impl Db {
    fn has_event(&self, id: Uuid) -> (r: bool)
        ensures
            r == logged(self.log.deep_view(), id),
    {
        let mut i: usize = 0;
        while i < self.log.len()
            invariant
                i <= self.log.len(),
                forall|j: int| 0 <= j < i ==> (#[trigger] self.log.deep_view()[j]).id != id,
            decreases self.log.len() - i,
        {
            assert(self.log.deep_view()[i as int] == self.log[i as int].deep_view());
            if self.log[i].id == id {
                return true;
            }
            i += 1;
        }
        false
    }

    /// Append an event to the log and apply it to the projections: both happen
    /// or neither does.
    pub fn append(&mut self, event: Event) -> (r: Result<(), StoreError>)
        ensures
            final(self).keeps_counts_of(*old(self)),
            match appended(old(self).tables@, old(self).log.deep_view(), event.deep_view()) {
                Ok(b) => {
                    &&& r is Ok
                    &&& final(self).tables@ == b
                    &&& final(self).log@ == old(self).log@.push(event)
                },
                Err(e) => {
                    &&& r == Err::<(), StoreError>(e)
                    &&& final(self).tables@ == old(self).tables@
                    &&& final(self).log@ == old(self).log@
                },
            },
            old(self).sound() ==> final(self).sound(),
    {
        let ghost b = self.tables@;
        let ghost e = event.deep_view();
        let ghost ss = statements(e);
        if self.has_event(event.id) {
            return Err(StoreError::EventExists);
        }
        let todo = apply_projection(&event);
        let mut i: usize = 0;
        while i < todo.len()
            invariant
                i <= todo.len(),
                todo.deep_view() == ss,
                ss == statements(e),
                after(b, ss, i as int) == Ok::<Board, StoreError>(self.tables@),
                b == old(self).tables@,
                self.log == old(self).log,
                self.counters == old(self).counters,
                self.settings == old(self).settings,
                e == event.deep_view(),
                !logged(old(self).log.deep_view(), e.id),
            decreases todo.len() - i,
        {
            assert(ss[i as int] == todo[i as int].deep_view());
            let ran = self.tables.run(&todo[i]);
            if let Err(refused) = ran {
                proof {
                    projection::only_the_first_statement_can_fail(b, e, i + 1);
                    if i > 0 {
                        projection::only_the_first_statement_can_fail(b, e, i as int);
                    }
                    projection::only_the_first_statement_can_fail(b, e, ss.len() as int);
                }
                return Err(refused);
            }
            i += 1;
        }
        let ghost log = self.log.deep_view();
        self.log.push(event);
        proof {
            assert(self.log.deep_view() =~= log.push(e));
            if old(self).sound() {
                projection::events_keep_the_rules(b, e);
                projection::appending_keeps_the_tables_derived(b, log, e);
                projection::appending_keeps_ids_distinct(b, log, e);
            }
        }
        Ok(())
    }

    /// As [`Db::commit`], but with an explicit timestamp. Bootstrapping uses
    /// it to give each of its events a distinct millisecond. The uuid is v7
    /// derived from `at`, so the log still sorts by time.
    pub fn commit_at(&mut self, actor: Option<UserId>, kind: EventKind, at: Millis) -> (r: Result<
        Event,
        StoreError,
    >)
        ensures
            committed(*old(self), actor, kind.deep_view(), at, r, *final(self)),
            old(self).sound() ==> final(self).sound(),
    {
        let event = Event { id: uuid_at(at), at, actor, kind };
        assert(stamped_event(event.deep_view(), actor, kind.deep_view(), at));
        match self.append(event.clone()) {
            Ok(()) => Ok(event),
            Err(e) => Err(e),
        }
    }

    /// Append an event that happens now, and apply it to the projections.
    pub fn commit(&mut self, actor: Option<UserId>, kind: EventKind) -> (r: Result<
        Event,
        StoreError,
    >)
        ensures
            exists|time: std::time::SystemTime|
                committed(
                    *old(self),
                    actor,
                    kind.deep_view(),
                    stamp_of(#[trigger] elapsed_at(time)) as Millis,
                    r,
                    *final(self),
                ),
            old(self).sound() ==> final(self).sound(),
    {
        let at = now_millis();
        self.commit_at(actor, kind, at)
    }

    /// Note that a user was here at `now`.
    pub fn touch_last_seen(&mut self, user: UserId, now: Millis)
        ensures
            final(self).keeps_counts_of(*old(self)),
            final(self).log == old(self).log,
            final(self).tables@ == touched(old(self).tables@, user, now),
            old(self).sound() ==> final(self).sound(),
    {
        self.tables.touch(user, now);
        proof {
            if old(self).sound() {
                projection::being_seen_changes_no_rule(
                    old(self).tables@,
                    self.log.deep_view(),
                    user,
                    now,
                );
            }
        }
    }
}

/// What is committed is logged as one event, with what was asked for in it and
/// an id that sorts by its time; what is refused leaves tables and log as they
/// were. Either way counters and settings stay.
pub proof fn a_commit_is_logged_or_changes_nothing(
    before: Db,
    actor: Option<UserId>,
    kind: KindData,
    at: Millis,
    r: Result<Event, StoreError>,
    now: Db,
)
    requires
        committed(before, actor, kind, at, r, now),
    ensures
        now.counters@ == before.counters@ && now.settings@ == before.settings@,
        r is Ok ==> {
            let event = r->Ok_0;
            &&& now.log@ == before.log@.push(event)
            &&& event.at == at
            &&& event.actor == actor
            &&& event.kind.deep_view() == kind
            &&& 0 <= at < 0x1_0000_0000_0000 ==> event.id.bits as int
                / 0x1_0000_0000_0000_0000_0000int == at
        },
        r is Err ==> now.tables@ == before.tables@ && now.log@ == before.log@,
{
}

/// A counter that was never used stands at zero, and one that was, at what its
/// row says; a setting is there exactly if a row has its key.
pub proof fn counters_and_settings_are_found_by_name(
    counters: Seq<Counter>,
    settings: Seq<Setting>,
    name: Seq<char>,
)
    ensures
        (forall|c: Counter| #[trigger] counters.contains(c) ==> c.name@ != name) ==> count_of(
            counters,
            name,
        ) == 0,
        (exists|c: Counter| #[trigger] counters.contains(c) && c.name@ == name) ==> exists|
            c: Counter,
        | #[trigger]
            counters.contains(c) && c.name@ == name && c.value == count_of(counters, name),
        value_of(settings, name) is None <==> forall|s: Setting| #[trigger]
            settings.contains(s) ==> s.key@ != name,
        value_of(settings, name) is Some ==> exists|s: Setting| #[trigger]
            settings.contains(s) && s.key@ == name && s.value@ == value_of(settings, name)->Some_0,
{
    lemma_first_found(counters, counts(name));
    lemma_first_found(settings, keyed(name));
}

} // verus!

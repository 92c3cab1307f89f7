//! The tally of error messages: each message of an error record, once, with
//! the number of error records that bear it, in the order in which the
//! messages first occur.

use std::collections::HashMap;

use vstd::prelude::*;
use vstd::string::StringSliceAdditionalSpecFns;
use vstd::utf8::encode_utf8;

use crate::entry::{has_level, LogRecord};
use crate::level::LogLevel;

verus! {

broadcast use vstd::std_specs::hash::group_hash_axioms;

/// A counted name as a mathematical value: a level name or an error message
/// with the number of entries that bear it.
pub struct Tally {
    pub name: Seq<char>,
    pub count: nat,
}

/// One error message with the number of error entries that bear it.
#[derive(Debug, PartialEq, Eq)]
pub struct ErrorFrequency {
    pub message: String,
    pub count: usize,
}

impl View for ErrorFrequency {
    type V = Tally;

    open spec fn view(&self) -> Tally {
        Tally { name: self.message@, count: self.count as nat }
    }
}

impl DeepView for ErrorFrequency {
    type V = Tally;

    open spec fn deep_view(&self) -> Tally {
        self@
    }
}

/// The predicate that holds of the error records with one message.
pub open spec fn is_error_with(message: Seq<char>) -> spec_fn(LogRecord) -> bool {
    |record: LogRecord| record.level == LogLevel::Error && record.message == message
}

/// The number of error records that bear `message`, compared character by
/// character.
pub open spec fn error_count(records: Seq<LogRecord>, message: Seq<char>) -> nat {
    records.filter(is_error_with(message)).len()
}

/// The messages of the error records, in the order of the records.
pub open spec fn error_messages(records: Seq<LogRecord>) -> Seq<Seq<char>> {
    records.filter(has_level(LogLevel::Error)).map_values(message_of())
}

/// The function that gives the message of a record.
pub open spec fn message_of() -> spec_fn(LogRecord) -> Seq<char> {
    |record: LogRecord| record.message
}

/// The distinct messages of a sequence, each at the place of its first
/// occurrence.
pub open spec fn first_occurrences(messages: Seq<Seq<char>>) -> Seq<Seq<char>>
    decreases messages.len(),
{
    if messages.len() == 0 {
        Seq::empty()
    } else if messages.drop_last().contains(messages.last()) {
        first_occurrences(messages.drop_last())
    } else {
        first_occurrences(messages.drop_last()).push(messages.last())
    }
}

/// The error messages of a sequence of records, each once and with the number
/// of error records that bear it, in the order in which the messages first
/// occur.
pub open spec fn error_tally(records: Seq<LogRecord>) -> Seq<Tally> {
    first_occurrences(error_messages(records)).map_values(error_row(records))
}

/// The function that gives the row of one error message: the message with the
/// number of error records that bear it.
pub open spec fn error_row(records: Seq<LogRecord>) -> spec_fn(Seq<char>) -> Tally {
    |message: Seq<char>| Tally { name: message, count: error_count(records, message) }
}

/// Whether some error record bears `first` and no record before it is an
/// error record that bears `second`.
pub open spec fn occurs_before(
    records: Seq<LogRecord>,
    first: Seq<char>,
    second: Seq<char>,
) -> bool {
    exists|at: int|
        #![trigger records[at]]
        0 <= at < records.len() && records[at].level == LogLevel::Error && records[at].message
            == first && error_count(records.take(at), second) == 0
}

/// The first occurrences of a sequence hold each of its messages, and each
/// only once.
proof fn lemma_first_occurrences(messages: Seq<Seq<char>>)
    ensures
        first_occurrences(messages).no_duplicates(),
        forall|message: Seq<char>|
            first_occurrences(messages).contains(message) <==> messages.contains(message),
    decreases messages.len(),
{
    if messages.len() > 0 {
        let earlier = messages.drop_last();
        let last = messages.last();
        lemma_first_occurrences(earlier);
        assert(messages == earlier.push(last));
        assert forall|message: Seq<char>|
            first_occurrences(messages).contains(message) <==> messages.contains(
                message,
            ) by {
            lemma_contains_push(earlier, last, message);
            lemma_contains_push(first_occurrences(earlier), last, message);
        }
    }
}

/// A sequence with one more item holds what it held before, and that item.
proof fn lemma_contains_push(items: Seq<Seq<char>>, last: Seq<char>, item: Seq<char>)
    ensures
        items.push(last).contains(item) <==> items.contains(item) || item == last,
{
    let longer = items.push(last);
    if items.contains(item) {
        let at = choose|at: int| 0 <= at < items.len() && items[at] == item;
        assert(longer[at] == item);
    }
    if item == last {
        assert(longer[items.len() as int] == item);
    }
}

/// How one more record changes the messages of the error records.
proof fn lemma_error_messages_push(records: Seq<LogRecord>, record: LogRecord)
    ensures
        error_messages(records.push(record)) == if record.level == LogLevel::Error {
            error_messages(records).push(record.message)
        } else {
            error_messages(records)
        },
{
    broadcast use Seq::lemma_filter_push;

    let errors = records.filter(has_level(LogLevel::Error));
    if record.level == LogLevel::Error {
        errors.lemma_push_map_commute(message_of(), record);
    }
}

/// A message is borne by some error record exactly if it is among the
/// messages of the error records.
proof fn lemma_error_count_positive(records: Seq<LogRecord>, message: Seq<char>)
    ensures
        error_count(records, message) > 0 <==> error_messages(records).contains(message),
    decreases records.len(),
{
    broadcast use Seq::lemma_filter_len_push;

    if records.len() == 0 {
        records.lemma_filter_len(is_error_with(message));
        records.lemma_filter_len(has_level(LogLevel::Error));
    } else {
        let earlier = records.drop_last();
        let last = records.last();
        assert(records == earlier.push(last));
        lemma_error_count_positive(earlier, message);
        lemma_error_messages_push(earlier, last);
        lemma_contains_push(error_messages(earlier), last.message, message);
    }
}

/// A record that is no error leaves the tally of error messages as it is.
pub proof fn lemma_tally_skip(records: Seq<LogRecord>, record: LogRecord)
    requires
        record.level != LogLevel::Error,
    ensures
        error_tally(records.push(record)) == error_tally(records),
{
    broadcast use Seq::lemma_filter_len_push;

    lemma_error_messages_push(records, record);
    assert(error_tally(records.push(record)) =~= error_tally(records));
}

/// An error record whose message the tally holds at `place` raises the count
/// of that row by one and leaves the other rows as they are.
proof fn lemma_tally_bump(records: Seq<LogRecord>, record: LogRecord, place: int)
    requires
        record.level == LogLevel::Error,
        0 <= place < error_tally(records).len(),
        error_tally(records)[place].name == record.message,
    ensures
        error_tally(records.push(record)) == error_tally(records).update(
            place,
            Tally { name: record.message, count: error_tally(records)[place].count + 1 },
        ),
{
    broadcast use Seq::lemma_filter_len_push;

    let messages = error_messages(records);
    let distinct = first_occurrences(messages);
    lemma_error_messages_push(records, record);
    lemma_first_occurrences(messages);
    assert(distinct[place] == record.message);
    assert(messages.contains(record.message));
    assert(messages.push(record.message).drop_last() == messages);
    assert(first_occurrences(messages.push(record.message)) == distinct);
    assert(error_tally(records.push(record)) =~= error_tally(records).update(
        place,
        Tally { name: record.message, count: error_tally(records)[place].count + 1 },
    ));
}

/// An error record whose message the tally does not hold adds a row for that
/// message, with the count one, behind the other rows.
proof fn lemma_tally_new(records: Seq<LogRecord>, record: LogRecord)
    requires
        record.level == LogLevel::Error,
        forall|place: int|
            0 <= place < error_tally(records).len() ==> (#[trigger] error_tally(
                records,
            )[place]).name != record.message,
    ensures
        error_tally(records.push(record)) == error_tally(records).push(
            Tally { name: record.message, count: 1 },
        ),
{
    broadcast use Seq::lemma_filter_len_push;

    let messages = error_messages(records);
    let distinct = first_occurrences(messages);
    lemma_error_messages_push(records, record);
    lemma_first_occurrences(messages);
    lemma_error_count_positive(records, record.message);
    if distinct.contains(record.message) {
        let place = choose|place: int|
            0 <= place < distinct.len() && distinct[place] == record.message;
        assert(error_tally(records)[place].name == record.message);
    }
    assert(!messages.contains(record.message));
    assert(messages.push(record.message).drop_last() == messages);
    assert(first_occurrences(messages.push(record.message)) == distinct.push(record.message));
    assert(error_tally(records.push(record)) =~= error_tally(records).push(
        Tally { name: record.message, count: 1 },
    ));
}

/// The tally of error messages holds every message that an error record
/// bears, each in one row only, with the number of error records that bear
/// it.
pub proof fn lemma_error_tally_rows(records: Seq<LogRecord>)
    ensures
        forall|k: int|
            0 <= k < error_tally(records).len() ==> {
                let row = #[trigger] error_tally(records)[k];
                row.count == error_count(records, row.name) && row.count > 0
            },
        forall|i: int, j: int|
            0 <= i < j < error_tally(records).len() ==> error_tally(records)[i].name
                != error_tally(records)[j].name,
        forall|message: Seq<char>|
            error_count(records, message) > 0 ==> error_tally(records).contains(
                Tally { name: message, count: error_count(records, message) },
            ),
{
    let messages = error_messages(records);
    let distinct = first_occurrences(messages);
    let tally = error_tally(records);
    lemma_first_occurrences(messages);
    assert forall|k: int| 0 <= k < tally.len() implies {
        let row = #[trigger] tally[k];
        row.count == error_count(records, row.name) && row.count > 0
    } by {
        assert(distinct.contains(distinct[k]));
        lemma_error_count_positive(records, distinct[k]);
    }
    assert forall|message: Seq<char>| error_count(records, message) > 0 implies tally.contains(
        Tally { name: message, count: error_count(records, message) },
    ) by {
        lemma_error_count_positive(records, message);
        let k = choose|k: int| 0 <= k < distinct.len() && distinct[k] == message;
        assert(tally[k] == Tally { name: message, count: error_count(records, message) });
    }
}

/// A message that some error record bears is borne by a record at some
/// place.
proof fn lemma_error_count_witness(records: Seq<LogRecord>, message: Seq<char>) -> (at: int)
    requires
        error_count(records, message) > 0,
    ensures
        0 <= at < records.len(),
        records[at].level == LogLevel::Error,
        records[at].message == message,
{
    let found = records.filter(is_error_with(message));
    records.lemma_filter_pred(is_error_with(message), 0);
    assert(found.contains(found[0]));
    records.lemma_filter_contains_rev(is_error_with(message), found[0]);
    choose|at: int| 0 <= at < records.len() && records[at] == found[0]
}

/// The rows of the tally stand in the order in which their messages first
/// occur: the message of an earlier row is borne by an error record before
/// any error record bears the message of a later row.
pub proof fn lemma_tally_order(records: Seq<LogRecord>, first: int, second: int)
    requires
        0 <= first < second < error_tally(records).len(),
    ensures
        occurs_before(
            records,
            error_tally(records)[first].name,
            error_tally(records)[second].name,
        ),
    decreases records.len(),
{
    if records.len() == 0 {
        records.lemma_filter_len(has_level(LogLevel::Error));
        assert(error_tally(records).len() == 0);
    } else {
        let earlier = records.drop_last();
        let last = records.last();
        let before = error_tally(earlier);
        let tally = error_tally(records);
        assert(records == earlier.push(last));
        let known = exists|place: int|
            0 <= place < before.len() && (#[trigger] before[place]).name == last.message;
        if last.level != LogLevel::Error {
            lemma_tally_skip(earlier, last);
        } else if known {
            let place = choose|place: int|
                0 <= place < before.len() && (#[trigger] before[place]).name == last.message;
            lemma_tally_bump(earlier, last, place);
        } else {
            lemma_tally_new(earlier, last);
        }
        if second < before.len() {
            assert(tally[first].name == before[first].name);
            assert(tally[second].name == before[second].name);
            lemma_tally_order(earlier, first, second);
            let at = choose|at: int|
                #![trigger earlier[at]]
                0 <= at < earlier.len() && earlier[at].level == LogLevel::Error
                    && earlier[at].message == before[first].name && error_count(
                    earlier.take(at),
                    before[second].name,
                ) == 0;
            assert(records[at] == earlier[at]);
            assert(records.take(at) == earlier.take(at));
        } else {
            assert(tally == before.push(Tally { name: last.message, count: 1 }));
            assert(tally[first] == before[first]);
            lemma_error_tally_rows(earlier);
            let at = lemma_error_count_witness(earlier, before[first].name);
            assert(records[at] == earlier[at]);
            assert(records.take(at) == earlier.take(at));
            assert(error_count(earlier, last.message) == 0) by {
                if error_count(earlier, last.message) > 0 {
                    let row = Tally {
                        name: last.message,
                        count: error_count(earlier, last.message),
                    };
                    assert(before.contains(row));
                    let place = choose|place: int|
                        0 <= place < before.len() && before[place] == row;
                    assert(before[place].name == last.message);
                }
            }
            earlier.lemma_filter_take_len(is_error_with(last.message), at);
        }
    }
}

/// The number under which a text is filed: computed from its bytes, one
/// after the other.
pub open spec fn text_key(bytes: Seq<u8>) -> u64
    decreases bytes.len(),
{
    if bytes.len() == 0 {
        7
    } else {
        text_key(bytes.drop_last()).wrapping_mul(31).wrapping_add(bytes.last() as u64)
    }
}

/// Computes the number under which a text is filed.
fn key_of(text: &str) -> (key: u64)
    ensures
        key == text_key(text.spec_bytes()),
{
    let bytes = text.as_bytes();
    let mut key: u64 = 7;
    let mut read: usize = 0;
    while read < bytes.len()
        invariant
            read <= bytes.len(),
            key == text_key(bytes@.take(read as int)),
        decreases bytes.len() - read,
    {
        assert(bytes@.take(read + 1).drop_last() == bytes@.take(read as int));
        key = key.wrapping_mul(31).wrapping_add(bytes[read] as u64);
        read += 1;
    }
    assert(bytes@.take(read as int) == bytes@);
    key
}

/// A tally of error messages in the making. Besides the rows it keeps, for
/// each key, the places of the rows whose messages are filed under it, so
/// that a message is looked for among few rows only.
pub(crate) struct ErrorCounter {
    rows: Vec<ErrorFrequency>,
    places: HashMap<u64, Vec<usize>>,
}

impl ErrorCounter {
    /// The rows counted so far.
    pub(crate) closed spec fn tally(&self) -> Seq<Tally> {
        self.rows.deep_view()
    }

    /// Whether the row at `place` is filed under the key of its message.
    spec fn filed(&self, place: int) -> bool {
        let key = text_key(encode_utf8(self.rows[place].message@));
        self.places@.contains_key(key) && self.places@[key]@.contains(place as usize)
    }

    /// Whether every row is filed under the key of its message, and every
    /// place that is filed is the place of a row.
    pub(crate) closed spec fn well_formed(&self) -> bool {
        &&& forall|place: int| 0 <= place < self.rows.len() ==> self.filed(place)
        &&& forall|key: u64, at: int|
            #![trigger self.places@[key][at]]
            self.places@.contains_key(key) && 0 <= at < self.places@[key].len()
                ==> self.places@[key][at] < self.rows.len()
    }

    /// A tally without rows.
    pub(crate) fn new() -> (counter: Self)
        ensures
            counter.well_formed(),
            counter.tally() == Seq::<Tally>::empty(),
    {
        let counter = ErrorCounter { rows: Vec::new(), places: HashMap::new() };
        assert(counter.rows.deep_view() == Seq::<Tally>::empty());
        counter
    }

    /// Looks for the row of a message among the rows that are filed under
    /// its key.
    fn find(&self, message: &String, key: u64) -> (found: Option<usize>)
        requires
            self.well_formed(),
            key == text_key(encode_utf8(message@)),
        ensures
            match found {
                Some(place) => place < self.rows.len() && self.rows[place as int].message@
                    == message@,
                None => forall|place: int|
                    0 <= place < self.rows.len() ==> (#[trigger] self.rows[place]).message@
                        != message@,
            },
    {
        match self.places.get(&key) {
            Some(filed) => {
                let mut at: usize = 0;
                while at < filed.len()
                    invariant
                        at <= filed.len(),
                        self.well_formed(),
                        self.places@.contains_key(key),
                        self.places@[key] == *filed,
                        forall|earlier: int|
                            0 <= earlier < at ==> self.rows[(#[trigger] filed[earlier]) as int]
                                .message@ != message@,
                    decreases filed.len() - at,
                {
                    let place = filed[at];
                    assert(place == self.places@[key][at as int]);
                    if self.rows[place].message == *message {
                        return Some(place);
                    }
                    at += 1;
                }
                assert forall|place: int| 0 <= place < self.rows.len() implies (
                #[trigger] self.rows[place]).message@ != message@ by {
                    if self.rows[place].message@ == message@ {
                        assert(self.filed(place));
                        let earlier = choose|earlier: int|
                            0 <= earlier < filed.len() && filed[earlier] == place as usize;
                        assert(self.rows[filed[earlier] as int].message@ != message@);
                    }
                }
                None
            },
            None => {
                assert forall|place: int| 0 <= place < self.rows.len() implies (
                #[trigger] self.rows[place]).message@ != message@ by {
                    if self.rows[place].message@ == message@ {
                        assert(self.filed(place));
                    }
                }
                None
            },
        }
    }

    /// Counts one more error record.
    pub(crate) fn count(
        &mut self,
        message: &String,
        Ghost(records): Ghost<Seq<LogRecord>>,
        Ghost(record): Ghost<LogRecord>,
    )
        requires
            old(self).well_formed(),
            old(self).tally() == error_tally(records),
            record.level == LogLevel::Error,
            record.message == message@,
            records.len() < usize::MAX,
        ensures
            final(self).well_formed(),
            final(self).tally() == error_tally(records.push(record)),
    {
        let key = key_of(message.as_str());
        match self.find(message, key) {
            Some(place) => {
                let count = self.rows[place].count;
                proof {
                    let row = error_tally(records)[place as int];
                    let distinct = first_occurrences(error_messages(records));
                    assert(self.rows.deep_view().len() == self.rows.len());
                    assert(distinct.map_values(error_row(records)).len() == distinct.len());
                    assert(row == self.rows[place as int]@);
                    assert(row == distinct.map_values(error_row(records))[place as int]);
                    assert(row == error_row(records)(distinct[place as int]));
                    records.lemma_filter_len(is_error_with(row.name));
                    assert(count < usize::MAX);
                    lemma_tally_bump(records, record, place as int);
                }
                self.rows[place].count = count + 1;
                assert(self.rows.deep_view() =~= error_tally(records.push(record)));
                assert forall|other: int| 0 <= other < self.rows.len() implies self.filed(
                    other,
                ) by {
                    assert(old(self).filed(other));
                    assert(self.rows[other].message == old(self).rows[other].message);
                }
            },
            None => {
                proof {
                    assert forall|at: int| 0 <= at < error_tally(records).len() implies (
                    #[trigger] error_tally(records)[at]).name != record.message by {
                        assert(self.rows.deep_view()[at] == self.rows[at]@);
                    }
                    lemma_tally_new(records, record);
                }
                let ghost before = self.rows.deep_view();
                let place = self.rows.len();
                self.rows.push(ErrorFrequency { message: message.clone(), count: 1 });
                assert(self.rows.deep_view() =~= before.push(Tally { name: message@, count: 1 }));
                let mut filed = match self.places.remove(&key) {
                    Some(filed) => filed,
                    None => Vec::new(),
                };
                let ghost filed_before = filed@;
                filed.push(place);
                self.places.insert(key, filed);
                assert forall|other: int| 0 <= other < self.rows.len() implies self.filed(
                    other,
                ) by {
                    if other < place {
                        assert(old(self).filed(other));
                        assert(self.rows[other] == old(self).rows[other]);
                        let other_key = text_key(encode_utf8(self.rows[other].message@));
                        if other_key == key {
                            let at = choose|at: int|
                                0 <= at < filed_before.len() && filed_before[at] == other as usize;
                            assert(filed@[at] == other as usize);
                        }
                    } else {
                        assert(filed@[filed_before.len() as int] == place);
                    }
                }
                assert forall|other_key: u64, at: int|
                    #![trigger self.places@[other_key][at]]
                    self.places@.contains_key(other_key) && 0 <= at
                        < self.places@[other_key].len() implies self.places@[other_key][at]
                    < self.rows.len() by {
                    if other_key == key {
                        if at < filed_before.len() {
                            assert(filed@[at] == old(self).places@[key][at]);
                        }
                    } else {
                        assert(self.places@[other_key][at] == old(self).places@[other_key][at]);
                    }
                }
            },
        }
    }

    /// Gives the rows up.
    pub(crate) fn into_rows(self) -> (rows: Vec<ErrorFrequency>)
        ensures
            rows.deep_view() == self.tally(),
    {
        self.rows
    }
}

} // verus!

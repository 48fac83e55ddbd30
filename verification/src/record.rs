//! The canonical record and the column mapping that fills it.

use crate::dates::{date_rewritten, rewrite_date};
use crate::decimal::DecimalSeparator;
use crate::text::{option_text, text_eq, texts};
use vstd::prelude::*;
use vstd::string::*;

verus! {

/// How one input column is read.
#[derive(Debug)]
pub enum Field {
    /// The cell is dropped.
    Ignore,
    /// The transaction date, written under the given `strftime` pattern; an
    /// empty pattern means the cell is already in ISO form.
    Date(String),
    Payee,
    Category,
    Memo,
    /// Money received, written under the given convention.
    Inflow(DecimalSeparator),
    /// Money spent, written under the given convention; stored negated.
    Outflow(DecimalSeparator),
    /// A named slot beside the five canonical ones.
    Extra(String),
}

/// One named slot beside the five canonical ones.
#[derive(Debug)]
pub struct ExtraField {
    pub name: String,
    pub value: String,
}

/// One transaction: five canonical slots, extra named slots, and a flag that
/// tells whether a rule has rewritten it.
#[derive(Debug)]
pub struct Record {
    pub date: String,
    pub payee: String,
    pub category: String,
    pub memo: String,
    pub amount: String,
    /// The extra slots, in the order they were first written; no name
    /// stands twice (see [`Record::wf`]).
    pub extra: Vec<ExtraField>,
    /// Whether a rule has fired on the record.
    pub transformed: bool,
}

/// Why a row could not be turned into a record.
#[derive(Debug, Clone, Copy, PartialEq, Eq, Structural)]
pub enum RecordError {
    /// The row has fewer cells than the mapping has columns.
    MappingError,
    /// A date cell does not follow the pattern declared for its column.
    DateParseError,
}

/// The mathematical content of a record.
pub struct RecordView {
    pub date: Seq<char>,
    pub payee: Seq<char>,
    pub category: Seq<char>,
    pub memo: Seq<char>,
    pub amount: Seq<char>,
    pub extra: Map<Seq<char>, Seq<char>>,
    pub transformed: bool,
}

/// The pattern of an ISO 8601 calendar date.
pub open spec fn iso_pattern() -> Seq<char> {
    "%Y-%m-%d"@
}

impl RecordView {
    /// The record with every slot empty.
    pub open spec fn blank() -> RecordView {
        RecordView {
            date: Seq::empty(),
            payee: Seq::empty(),
            category: Seq::empty(),
            memo: Seq::empty(),
            amount: Seq::empty(),
            extra: Map::empty(),
            transformed: false,
        }
    }

    /// The text under `key`: a canonical slot always has one, an extra slot
    /// only once it was written.
    pub open spec fn lookup(self, key: Seq<char>) -> Option<Seq<char>> {
        if key == "date"@ {
            Some(self.date)
        } else if key == "payee"@ {
            Some(self.payee)
        } else if key == "category"@ {
            Some(self.category)
        } else if key == "memo"@ {
            Some(self.memo)
        } else if key == "amount"@ {
            Some(self.amount)
        } else if self.extra.contains_key(key) {
            Some(self.extra[key])
        } else {
            None
        }
    }

    /// The record with `value` written under `key`.
    pub open spec fn put(self, key: Seq<char>, value: Seq<char>) -> RecordView {
        if key == "date"@ {
            RecordView { date: value, ..self }
        } else if key == "payee"@ {
            RecordView { payee: value, ..self }
        } else if key == "category"@ {
            RecordView { category: value, ..self }
        } else if key == "memo"@ {
            RecordView { memo: value, ..self }
        } else if key == "amount"@ {
            RecordView { amount: value, ..self }
        } else {
            RecordView { extra: self.extra.insert(key, value), ..self }
        }
    }

    /// The record after one column of the mapping has read its cell, or
    /// `None` where a date cell does not follow the column's pattern.
    pub open spec fn assigned(self, field: Field, cell: Seq<char>) -> Option<RecordView> {
        match field {
            Field::Ignore => Some(self),
            Field::Date(pattern) => if pattern@.len() == 0 {
                Some(RecordView { date: cell, ..self })
            } else {
                match date_rewritten(cell, pattern@, iso_pattern()) {
                    Some(date) => Some(RecordView { date, ..self }),
                    None => None,
                }
            },
            Field::Payee => Some(RecordView { payee: cell, ..self }),
            Field::Category => Some(RecordView { category: cell, ..self }),
            Field::Memo => Some(RecordView { memo: cell, ..self }),
            Field::Inflow(sep) => Some(RecordView { amount: sep.simplified(cell), ..self }),
            Field::Outflow(sep) => Some(
                RecordView { amount: seq!['-'] + sep.simplified(cell), ..self },
            ),
            Field::Extra(name) => Some(
                RecordView { extra: self.extra.insert(name@, cell), ..self },
            ),
        }
    }

    /// The record after the first `n` columns of `mapping` have read their
    /// cells of `row`, each column writing over what earlier ones left.
    pub open spec fn mapped(row: Seq<Seq<char>>, mapping: Seq<Field>, n: nat) -> Option<
        RecordView,
    >
        decreases n,
    {
        if n == 0 {
            Some(RecordView::blank())
        } else {
            match RecordView::mapped(row, mapping, (n - 1) as nat) {
                Some(r) => r.assigned(mapping[n - 1], row[n - 1]),
                None => None,
            }
        }
    }
}

/// The name of the extra slot at position `i`.
pub open spec fn name_at(slots: Seq<ExtraField>, i: int) -> Seq<char> {
    slots[i].name@
}

/// Whether some extra slot is called `key`.
pub open spec fn has_name(slots: Seq<ExtraField>, key: Seq<char>) -> bool {
    exists|i: int| 0 <= i < slots.len() && #[trigger] name_at(slots, i) == key
}

/// No two extra slots share a name.
pub open spec fn names_unique(slots: Seq<ExtraField>) -> bool {
    forall|i: int, j: int|
        0 <= i < j < slots.len() ==> #[trigger] name_at(slots, i) != #[trigger] name_at(slots, j)
}

/// The extra slots as a map from name to value.
pub open spec fn extra_map(slots: Seq<ExtraField>) -> Map<Seq<char>, Seq<char>> {
    Map::new(
        |key: Seq<char>| has_name(slots, key),
        |key: Seq<char>|
            slots[choose|i: int| 0 <= i < slots.len() && #[trigger] name_at(slots, i) == key].value@,
    )
}

/// In a list of uniquely named slots, the slot at `i` is the one its name
/// maps to.
pub proof fn lemma_extra_map_at(slots: Seq<ExtraField>, i: int)
    requires
        names_unique(slots),
        0 <= i < slots.len(),
    ensures
        extra_map(slots).contains_key(slots[i].name@),
        extra_map(slots)[slots[i].name@] == slots[i].value@,
{
    let key = slots[i].name@;
    assert(name_at(slots, i) == key);
    let j = choose|j: int| 0 <= j < slots.len() && #[trigger] name_at(slots, j) == key;
    assert(j == i) by {
        if j < i {
            assert(name_at(slots, j) != name_at(slots, i));
        } else if i < j {
            assert(name_at(slots, i) != name_at(slots, j));
        }
    }
}

/// Appending a slot under a fresh name inserts it into the map.
pub proof fn lemma_extra_map_push(slots: Seq<ExtraField>, slot: ExtraField)
    requires
        names_unique(slots),
        !has_name(slots, slot.name@),
    ensures
        names_unique(slots.push(slot)),
        extra_map(slots.push(slot)) == extra_map(slots).insert(slot.name@, slot.value@),
{
    let after = slots.push(slot);
    assert forall|i: int, j: int| 0 <= i < j < after.len() implies #[trigger] name_at(after, i)
        != #[trigger] name_at(after, j) by {
        if j < slots.len() {
            assert(name_at(slots, i) != name_at(slots, j));
        } else {
            assert(name_at(slots, i) == name_at(after, i));
        }
    }
    assert forall|key: Seq<char>| has_name(after, key) <==> (has_name(slots, key) || key
        == slot.name@) by {
        if has_name(after, key) {
            let i = choose|i: int| 0 <= i < after.len() && #[trigger] name_at(after, i) == key;
            if i < slots.len() {
                assert(name_at(slots, i) == key);
            }
        }
        if has_name(slots, key) {
            let i = choose|i: int| 0 <= i < slots.len() && #[trigger] name_at(slots, i) == key;
            assert(name_at(after, i) == key);
        }
        if key == slot.name@ {
            assert(name_at(after, slots.len() as int) == key);
        }
    }
    assert forall|key: Seq<char>| #[trigger] has_name(after, key) implies extra_map(after)[key]
        == extra_map(slots).insert(slot.name@, slot.value@)[key] by {
        let i = choose|i: int| 0 <= i < after.len() && #[trigger] name_at(after, i) == key;
        lemma_extra_map_at(after, i);
        if i < slots.len() {
            assert(name_at(slots, i) == key);
            lemma_extra_map_at(slots, i);
        }
    }
    assert(extra_map(after) =~= extra_map(slots).insert(slot.name@, slot.value@));
}

/// Replacing a slot by one of the same name overwrites its value in the map.
pub proof fn lemma_extra_map_update(slots: Seq<ExtraField>, at: int, slot: ExtraField)
    requires
        names_unique(slots),
        0 <= at < slots.len(),
        slots[at].name@ == slot.name@,
    ensures
        names_unique(slots.update(at, slot)),
        extra_map(slots.update(at, slot)) == extra_map(slots).insert(slot.name@, slot.value@),
{
    let after = slots.update(at, slot);
    assert forall|i: int| 0 <= i < slots.len() implies name_at(after, i) == name_at(slots, i) by {}
    assert forall|i: int, j: int| 0 <= i < j < after.len() implies #[trigger] name_at(after, i)
        != #[trigger] name_at(after, j) by {
        assert(name_at(slots, i) != name_at(slots, j));
    }
    assert forall|key: Seq<char>| has_name(after, key) <==> has_name(slots, key) by {
        if has_name(after, key) {
            let i = choose|i: int| 0 <= i < after.len() && #[trigger] name_at(after, i) == key;
            assert(name_at(slots, i) == key);
        }
        if has_name(slots, key) {
            let i = choose|i: int| 0 <= i < slots.len() && #[trigger] name_at(slots, i) == key;
            assert(name_at(after, i) == key);
        }
    }
    assert(name_at(slots, at) == slot.name@);
    assert forall|key: Seq<char>| #[trigger] has_name(after, key) implies extra_map(after)[key]
        == extra_map(slots).insert(slot.name@, slot.value@)[key] by {
        let i = choose|i: int| 0 <= i < after.len() && #[trigger] name_at(after, i) == key;
        lemma_extra_map_at(after, i);
        if i != at {
            assert(name_at(slots, i) == key);
            lemma_extra_map_at(slots, i);
            if i < at {
                assert(name_at(slots, i) != name_at(slots, at));
            } else {
                assert(name_at(slots, at) != name_at(slots, i));
            }
        }
    }
    assert(extra_map(after) =~= extra_map(slots).insert(slot.name@, slot.value@));
}

impl View for Record {
    type V = RecordView;

    open spec fn view(&self) -> RecordView {
        RecordView {
            date: self.date@,
            payee: self.payee@,
            category: self.category@,
            memo: self.memo@,
            amount: self.amount@,
            extra: extra_map(self.extra@),
            transformed: self.transformed,
        }
    }
}

impl Record {
    /// A record is well formed when no two of its extra slots share a name.
    pub open spec fn wf(&self) -> bool {
        names_unique(self.extra@)
    }

    /// The record with every slot empty, not yet transformed.
    pub fn new() -> (r: Record)
        ensures
            r.wf(),
            r@ == RecordView::blank(),
            r.extra@.len() == 0,
    {
        let r = Record {
            date: String::new(),
            payee: String::new(),
            category: String::new(),
            memo: String::new(),
            amount: String::new(),
            extra: Vec::new(),
            transformed: false,
        };
        assert(r@.extra =~= Map::empty());
        r
    }

    /// Whether the record is well formed. Records made by this library
    /// are; one whose fields were written directly may not be.
    pub fn is_wf(&self) -> (ok: bool)
        ensures
            ok == self.wf(),
    {
        let mut j: usize = 0;
        while j < self.extra.len()
            invariant
                j <= self.extra@.len(),
                forall|a: int, b: int|
                    0 <= a < b < j ==> #[trigger] name_at(self.extra@, a) != #[trigger] name_at(
                        self.extra@,
                        b,
                    ),
            decreases self.extra@.len() - j,
        {
            let mut i: usize = 0;
            while i < j
                invariant
                    i <= j < self.extra@.len(),
                    forall|a: int|
                        0 <= a < i ==> #[trigger] name_at(self.extra@, a) != name_at(
                            self.extra@,
                            j as int,
                        ),
                decreases j - i,
            {
                if text_eq(self.extra[i].name.as_str(), self.extra[j].name.as_str()) {
                    assert(name_at(self.extra@, i as int) == name_at(self.extra@, j as int));
                    return false;
                }
                i += 1;
            }
            j += 1;
        }
        true
    }

    /// The position of the extra slot called `key`, if there is one.
    fn find_extra(&self, key: &str) -> (found: Option<usize>)
        ensures
            match found {
                Some(i) => i < self.extra@.len() && self.extra@[i as int].name@ == key@,
                None => !has_name(self.extra@, key@),
            },
    {
        let mut i: usize = 0;
        while i < self.extra.len()
            invariant
                i <= self.extra@.len(),
                forall|j: int| 0 <= j < i ==> #[trigger] name_at(self.extra@, j) != key@,
            decreases self.extra@.len() - i,
        {
            if text_eq(self.extra[i].name.as_str(), key) {
                return Some(i);
            }
            i += 1;
        }
        None
    }

    /// The text under `key`: a canonical slot or an extra one; `None` for an
    /// extra slot that was never written.
    pub fn get(&self, key: &str) -> (value: Option<&str>)
        requires
            self.wf(),
        ensures
            match value {
                Some(v) => self@.lookup(key@) == Some(v@),
                None => self@.lookup(key@) is None,
            },
    {
        if text_eq(key, "date") {
            Some(self.date.as_str())
        } else if text_eq(key, "payee") {
            Some(self.payee.as_str())
        } else if text_eq(key, "category") {
            Some(self.category.as_str())
        } else if text_eq(key, "memo") {
            Some(self.memo.as_str())
        } else if text_eq(key, "amount") {
            Some(self.amount.as_str())
        } else {
            match self.find_extra(key) {
                Some(i) => {
                    proof {
                        lemma_extra_map_at(self.extra@, i as int);
                    }
                    Some(self.extra[i].value.as_str())
                },
                None => None,
            }
        }
    }

    /// Writes `value` under the extra name `key`, over an earlier value of
    /// that name if there is one, which is returned.
    fn put_extra(&mut self, key: &str, value: String) -> (previous: Option<String>)
        requires
            old(self).wf(),
        ensures
            final(self).wf(),
            final(self)@ == (RecordView {
                extra: old(self)@.extra.insert(key@, value@),
                ..old(self)@
            }),
            option_text(previous) == if old(self)@.extra.contains_key(key@) {
                Some(old(self)@.extra[key@])
            } else {
                None
            },
    {
        let slot = ExtraField { name: key.to_owned(), value };
        match self.find_extra(key) {
            Some(i) => {
                let before = self.extra[i].value.clone();
                proof {
                    lemma_extra_map_at(self.extra@, i as int);
                    lemma_extra_map_update(self.extra@, i as int, slot);
                }
                self.extra.set(i, slot);
                Some(before)
            },
            None => {
                proof {
                    lemma_extra_map_push(self.extra@, slot);
                }
                self.extra.push(slot);
                None
            },
        }
    }

    /// Writes `value` under `key` and returns what stood there before: the
    /// earlier text of a canonical slot, even an empty one, and `None` only
    /// for an extra slot that did not exist yet.
    pub fn replace(&mut self, key: &str, value: String) -> (previous: Option<String>)
        requires
            old(self).wf(),
        ensures
            final(self).wf(),
            final(self)@ == old(self)@.put(key@, value@),
            option_text(previous) == old(self)@.lookup(key@),
    {
        if text_eq(key, "date") {
            let mut previous = value;
            std::mem::swap(&mut self.date, &mut previous);
            Some(previous)
        } else if text_eq(key, "payee") {
            let mut previous = value;
            std::mem::swap(&mut self.payee, &mut previous);
            Some(previous)
        } else if text_eq(key, "category") {
            let mut previous = value;
            std::mem::swap(&mut self.category, &mut previous);
            Some(previous)
        } else if text_eq(key, "memo") {
            let mut previous = value;
            std::mem::swap(&mut self.memo, &mut previous);
            Some(previous)
        } else if text_eq(key, "amount") {
            let mut previous = value;
            std::mem::swap(&mut self.amount, &mut previous);
            Some(previous)
        } else {
            self.put_extra(key, value)
        }
    }

    /// The names under which this record holds a text: the five canonical
    /// ones first, then the extra ones in the order they were first written.
    pub fn keys(&self) -> (names: Vec<String>)
        ensures
            names@.len() == 5 + self.extra@.len(),
            names@[0]@ == "date"@,
            names@[1]@ == "payee"@,
            names@[2]@ == "category"@,
            names@[3]@ == "memo"@,
            names@[4]@ == "amount"@,
            forall|i: int| 0 <= i < self.extra@.len() ==> (#[trigger] names@[5 + i])@ == self.extra@[i].name@,
    {
        let mut names: Vec<String> = Vec::new();
        names.push("date".to_owned());
        names.push("payee".to_owned());
        names.push("category".to_owned());
        names.push("memo".to_owned());
        names.push("amount".to_owned());
        let mut i: usize = 0;
        while i < self.extra.len()
            invariant
                i <= self.extra@.len(),
                names@.len() == 5 + i,
                names@[0]@ == "date"@,
                names@[1]@ == "payee"@,
                names@[2]@ == "category"@,
                names@[3]@ == "memo"@,
                names@[4]@ == "amount"@,
                forall|j: int| 0 <= j < i ==> (#[trigger] names@[5 + j])@ == self.extra@[j].name@,
            decreases self.extra@.len() - i,
        {
            names.push(self.extra[i].name.clone());
            i += 1;
        }
        names
    }

    /// Stores the outcome of rewriting a date cell: the rewritten date, or
    /// the failure to read the cell under its column's pattern.
    pub fn set_date(&mut self, rewritten: Option<String>) -> (done: Result<(), RecordError>)
        ensures
            match rewritten {
                Some(date) => done is Ok && *final(self) == (Record { date, ..*old(self) }),
                None => done == Err::<(), RecordError>(RecordError::DateParseError) && *final(self)
                    == *old(self),
            },
    {
        match rewritten {
            Some(date) => {
                self.date = date;
                Ok(())
            },
            None => Err(RecordError::DateParseError),
        }
    }

    /// Lets one column of the mapping read its cell into the record.
    pub fn assign(&mut self, field: &Field, cell: String) -> (done: Result<(), RecordError>)
        requires
            old(self).wf(),
        ensures
            final(self).wf(),
            match old(self)@.assigned(*field, cell@) {
                Some(r) => done is Ok && final(self)@ == r,
                None => done == Err::<(), RecordError>(RecordError::DateParseError),
            },
    {
        match field {
            Field::Ignore => Ok(()),
            Field::Date(pattern) => {
                if pattern.as_str().unicode_len() == 0 {
                    self.date = cell;
                    Ok(())
                } else {
                    let rewritten = rewrite_date(cell.as_str(), pattern.as_str(), "%Y-%m-%d");
                    self.set_date(rewritten)
                }
            },
            Field::Payee => {
                self.payee = cell;
                Ok(())
            },
            Field::Category => {
                self.category = cell;
                Ok(())
            },
            Field::Memo => {
                self.memo = cell;
                Ok(())
            },
            Field::Inflow(sep) => {
                self.amount = sep.simplify(cell.as_str());
                Ok(())
            },
            Field::Outflow(sep) => {
                let plain = sep.simplify(cell.as_str());
                proof {
                    reveal_strlit("-");
                    assert("-"@ =~= seq!['-']);
                }
                self.amount = String::from_str("-").concat(plain.as_str());
                Ok(())
            },
            Field::Extra(name) => {
                let _ = self.put_extra(name.as_str(), cell);
                Ok(())
            },
        }
    }

    /// Builds the record of one row: column `i` of `mapping` reads cell `i`
    /// of `input`. A row shorter than the mapping is refused; so is a date
    /// cell that does not follow its column's pattern.
    pub fn from(input: &Vec<String>, mapping: &Vec<Field>) -> (made: Result<Record, RecordError>)
        ensures
            input@.len() < mapping@.len() ==> made == Err::<Record, RecordError>(
                RecordError::MappingError,
            ),
            input@.len() >= mapping@.len() ==> match RecordView::mapped(
                texts(input@),
                mapping@,
                mapping@.len(),
            ) {
                Some(r) => made is Ok && made->Ok_0@ == r && made->Ok_0.wf(),
                None => made == Err::<Record, RecordError>(RecordError::DateParseError),
            },
    {
        if input.len() < mapping.len() {
            return Err(RecordError::MappingError);
        }
        let mut r = Record::new();
        let mut i: usize = 0;
        while i < mapping.len()
            invariant
                i <= mapping@.len() <= input@.len(),
                r.wf(),
                RecordView::mapped(texts(input@), mapping@, i as nat) == Some(r@),
            decreases mapping@.len() - i,
        {
            let cell = input[i].clone();
            proof {
                reveal_with_fuel(RecordView::mapped, 2);
                assert(texts(input@)[i as int] == cell@);
            }
            match r.assign(&mapping[i], cell) {
                Ok(()) => {},
                Err(e) => {
                    proof {
                        lemma_mapped_fails(texts(input@), mapping@, (i + 1) as nat, mapping@.len());
                    }
                    return Err(e);
                },
            }
            i += 1;
        }
        Ok(r)
    }
}

/// A record as a row of the budgeting format.
pub trait YnabRecord {
    /// The header row of the budgeting format.
    fn header() -> Vec<String>;

    /// The row of this record.
    fn to_record(&self) -> Vec<String>;
}

impl YnabRecord for Record {
    /// `Date`, `Payee`, `Category`, `Memo`, `Amount`.
    fn header() -> (cells: Vec<String>)
        ensures
            texts(cells@) == seq!["Date"@, "Payee"@, "Category"@, "Memo"@, "Amount"@],
    {
        let mut cells: Vec<String> = Vec::new();
        cells.push("Date".to_owned());
        cells.push("Payee".to_owned());
        cells.push("Category".to_owned());
        cells.push("Memo".to_owned());
        cells.push("Amount".to_owned());
        assert(texts(cells@) =~= seq!["Date"@, "Payee"@, "Category"@, "Memo"@, "Amount"@]);
        cells
    }

    /// The five canonical slots in the order of the header.
    fn to_record(&self) -> (cells: Vec<String>)
        ensures
            texts(cells@) == seq![
                self@.date,
                self@.payee,
                self@.category,
                self@.memo,
                self@.amount,
            ],
    {
        let mut cells: Vec<String> = Vec::new();
        cells.push(self.date.clone());
        cells.push(self.payee.clone());
        cells.push(self.category.clone());
        cells.push(self.memo.clone());
        cells.push(self.amount.clone());
        assert(texts(cells@) =~= seq![
            self@.date,
            self@.payee,
            self@.category,
            self@.memo,
            self@.amount,
        ]);
        cells
    }
}

/// Whether `key` names one of the five canonical slots.
pub open spec fn is_canonical(key: Seq<char>) -> bool {
    key == "date"@ || key == "payee"@ || key == "category"@ || key == "memo"@ || key == "amount"@
}

/// The slot that a column writes, if it writes one.
pub open spec fn slot_of(field: Field) -> Option<Seq<char>> {
    match field {
        Field::Ignore => None,
        Field::Date(_) => Some("date"@),
        Field::Payee => Some("payee"@),
        Field::Category => Some("category"@),
        Field::Memo => Some("memo"@),
        Field::Inflow(_) => Some("amount"@),
        Field::Outflow(_) => Some("amount"@),
        Field::Extra(name) => Some(name@),
    }
}

/// The text that a column makes of its cell, or `None` where a date cell
/// does not follow the column's pattern.
pub open spec fn cell_value(field: Field, cell: Seq<char>) -> Option<Seq<char>> {
    match field {
        Field::Date(pattern) => if pattern@.len() == 0 {
            Some(cell)
        } else {
            date_rewritten(cell, pattern@, iso_pattern())
        },
        Field::Inflow(sep) => Some(sep.simplified(cell)),
        Field::Outflow(sep) => Some(seq!['-'] + sep.simplified(cell)),
        _ => Some(cell),
    }
}

/// A column that is the last to write its slot, and is not an extra column
/// that hides behind a canonical name.
pub open spec fn is_last_writer(mapping: Seq<Field>, i: int, n: int) -> bool {
    &&& slot_of(mapping[i]) is Some
    &&& forall|j: int| i < j < n ==> slot_of(#[trigger] mapping[j]) != slot_of(mapping[i])
    &&& mapping[i] is Extra ==> !is_canonical(slot_of(mapping[i])->Some_0)
}

/// The names of the five canonical slots differ from each other.
pub proof fn lemma_canonical_keys_differ()
    ensures
        "date"@ != "payee"@,
        "date"@ != "category"@,
        "date"@ != "memo"@,
        "date"@ != "amount"@,
        "payee"@ != "category"@,
        "payee"@ != "memo"@,
        "payee"@ != "amount"@,
        "category"@ != "memo"@,
        "category"@ != "amount"@,
        "memo"@ != "amount"@,
{
    reveal_strlit("date");
    reveal_strlit("payee");
    reveal_strlit("category");
    reveal_strlit("memo");
    reveal_strlit("amount");
    assert("date"@.len() == 4 && "payee"@.len() == 5 && "category"@.len() == 8 && "memo"@.len()
        == 4 && "amount"@.len() == 6);
    assert("date"@[0] == 'd' && "memo"@[0] == 'm');
}

/// What was written under a name is what is found under it, and every
/// other name holds what it held.
pub proof fn lemma_put_then_lookup(r: RecordView, key: Seq<char>, value: Seq<char>, other: Seq<char>)
    ensures
        r.put(key, value).lookup(key) == Some(value),
        other != key ==> r.put(key, value).lookup(other) == r.lookup(other),
        r.put(key, value).transformed == r.transformed,
{
    lemma_canonical_keys_differ();
}

/// A column leaves every slot but its own as it was.
pub proof fn lemma_assigned_keeps(r: RecordView, field: Field, cell: Seq<char>, key: Seq<char>)
    requires
        r.assigned(field, cell) is Some,
        slot_of(field) != Some(key),
    ensures
        r.assigned(field, cell)->Some_0.lookup(key) == r.lookup(key),
{
}

/// A column writes the text it makes of its cell under its slot's name,
/// unless it is an extra column that hides behind a canonical name.
pub proof fn lemma_assigned_sets(r: RecordView, field: Field, cell: Seq<char>)
    requires
        r.assigned(field, cell) is Some,
        slot_of(field) is Some,
        field is Extra ==> !is_canonical(slot_of(field)->Some_0),
    ensures
        r.assigned(field, cell)->Some_0.lookup(slot_of(field)->Some_0) == cell_value(field, cell),
{
    lemma_canonical_keys_differ();
}

/// A row with a cell for every column, whose date cells follow their
/// columns' patterns, always makes a record; and the text that a column
/// makes of its cell is found under the column's slot name, provided no
/// later column writes the same slot and an extra column does not take a
/// canonical name.
pub proof fn lemma_mapped_total_and_retrievable(row: Seq<Seq<char>>, mapping: Seq<Field>, n: nat)
    requires
        n <= mapping.len() <= row.len(),
        forall|i: int| 0 <= i < n ==> cell_value(#[trigger] mapping[i], row[i]) is Some,
    ensures
        RecordView::mapped(row, mapping, n) is Some,
        forall|i: int|
            0 <= i < n && #[trigger] is_last_writer(mapping, i, n as int) ==> RecordView::mapped(
                row,
                mapping,
                n,
            )->Some_0.lookup(slot_of(mapping[i])->Some_0) == cell_value(mapping[i], row[i]),
    decreases n,
{
    if n > 0 {
        let m = (n - 1) as nat;
        lemma_mapped_total_and_retrievable(row, mapping, m);
        let before = RecordView::mapped(row, mapping, m)->Some_0;
        let field = mapping[n - 1];
        let cell = row[n - 1];
        assert(cell_value(field, cell) is Some);
        assert(before.assigned(field, cell) is Some);
        let after = before.assigned(field, cell)->Some_0;
        assert forall|i: int| 0 <= i < n && #[trigger] is_last_writer(
            mapping,
            i,
            n as int,
        ) implies after.lookup(slot_of(mapping[i])->Some_0) == cell_value(mapping[i], row[i]) by {
            if i == n - 1 {
                lemma_assigned_sets(before, field, cell);
            } else {
                assert(is_last_writer(mapping, i, m as int));
                assert(slot_of(mapping[n - 1]) != slot_of(mapping[i]));
                lemma_assigned_keeps(before, field, cell, slot_of(mapping[i])->Some_0);
            }
        }
    }
}

/// Once a column has failed, every longer prefix of the mapping fails.
pub proof fn lemma_mapped_fails(row: Seq<Seq<char>>, mapping: Seq<Field>, n: nat, m: nat)
    requires
        n <= m,
        RecordView::mapped(row, mapping, n) is None,
    ensures
        RecordView::mapped(row, mapping, m) is None,
    decreases m,
{
    if n < m {
        lemma_mapped_fails(row, mapping, n, (m - 1) as nat);
    }
}

} // verus!

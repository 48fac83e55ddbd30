//! Field rewriting: patterns that must all match, and templates that are
//! filled from what the patterns captured.

use crate::pattern::{
    accepts, capture_groups, compile, compiled, groups, groups_view, is_match, Group,
};
use crate::record::{Record, RecordView};
use crate::rule::{Applied, ConfigError, ConfigFault, Transformer};
use crate::template::{expanded, interpolate, outcome, TemplateError, TemplateFault};
use crate::text::text_eq;
use regex::Regex;
use vstd::prelude::*;
use vstd::string::*;

verus! {

/// A list of name and text pairs read as a table in which a later pair
/// overrides an earlier one of the same name.
pub open spec fn pairs_map(pairs: Seq<(String, String)>) -> Map<Seq<char>, Seq<char>>
    decreases pairs.len(),
{
    if pairs.len() == 0 {
        Map::empty()
    } else {
        pairs_map(pairs.drop_last()).insert(pairs.last().0@, pairs.last().1@)
    }
}

/// Pairs that do not carry `key` can be dropped from the end of the list
/// without changing what the table holds for `key`.
pub proof fn lemma_pairs_map_tail(pairs: Seq<(String, String)>, i: int, key: Seq<char>)
    requires
        0 <= i <= pairs.len(),
        forall|k: int| i <= k < pairs.len() ==> (#[trigger] pairs[k]).0@ != key,
    ensures
        pairs_map(pairs).contains_key(key) == pairs_map(pairs.take(i)).contains_key(key),
        pairs_map(pairs).contains_key(key) ==> pairs_map(pairs)[key] == pairs_map(
            pairs.take(i),
        )[key],
    decreases pairs.len() - i,
{
    if i < pairs.len() {
        let head = pairs.drop_last();
        assert forall|k: int| i <= k < head.len() implies (#[trigger] head[k]).0@ != key by {
            assert(head[k] == pairs[k]);
        }
        lemma_pairs_map_tail(head, i, key);
        assert(head.take(i) =~= pairs.take(i));
        assert(pairs[pairs.len() - 1].0@ != key);
    } else {
        assert(pairs.take(i) =~= pairs);
    }
}

/// The text that the table holds for `key`, if any.
pub fn table_get<'a>(pairs: &'a Vec<(String, String)>, key: &str) -> (value: Option<&'a str>)
    ensures
        match value {
            Some(v) => pairs_map(pairs@).contains_key(key@) && pairs_map(pairs@)[key@] == v@,
            None => !pairs_map(pairs@).contains_key(key@),
        },
{
    let mut i: usize = pairs.len();
    while i > 0
        invariant
            i <= pairs@.len(),
            forall|k: int| i <= k < pairs@.len() ==> (#[trigger] pairs@[k]).0@ != key@,
        decreases i,
    {
        i -= 1;
        if text_eq(pairs[i].0.as_str(), key) {
            proof {
                lemma_pairs_map_tail(pairs@, i + 1, key@);
                assert(pairs@.take(i + 1).drop_last() =~= pairs@.take(i as int));
            }
            return Some(pairs[i].1.as_str());
        }
    }
    proof {
        lemma_pairs_map_tail(pairs@, 0, key@);
    }
    None
}

/// The table `table` after the first `n` groups of a match were entered:
/// each group that has a name and took part in the match writes its text
/// under its name, over what stood there.
pub open spec fn with_groups(
    table: Map<Seq<char>, Seq<char>>,
    found: Seq<(Option<Seq<char>>, Option<Seq<char>>)>,
    n: nat,
) -> Map<Seq<char>, Seq<char>>
    decreases n,
{
    if n == 0 {
        table
    } else {
        let before = with_groups(table, found, (n - 1) as nat);
        match found[n - 1] {
            (Some(name), Some(text)) => before.insert(name, text),
            _ => before,
        }
    }
}

/// The capture table after the first `n` search entries were matched
/// against the record, or `None` where one of them names a slot that the
/// record lacks or does not match its text.
pub open spec fn capture_table(search: Seq<(String, Regex)>, r: RecordView, n: nat) -> Option<
    Map<Seq<char>, Seq<char>>,
>
    decreases n,
{
    if n == 0 {
        Some(Map::empty())
    } else {
        match capture_table(search, r, (n - 1) as nat) {
            Some(table) => match r.lookup(search[n - 1].0@) {
                Some(text) => match groups(search[n - 1].1, text) {
                    Some(found) => Some(with_groups(table, found, found.len())),
                    None => None,
                },
                None => None,
            },
            None => None,
        }
    }
}

/// The lookup that fills a template: a captured text first, else the
/// record's text under that name, else the empty text.
pub open spec fn value_of(table: Map<Seq<char>, Seq<char>>, r: RecordView) -> spec_fn(
    Seq<char>,
) -> Seq<char> {
    |key: Seq<char>|
        if table.contains_key(key) {
            table[key]
        } else {
            match r.lookup(key) {
                Some(text) => text,
                None => Seq::empty(),
            }
        }
}

/// The record after the first `n` replace entries were applied in order,
/// each template filled from the capture table and the record as the
/// earlier entries left it; or the failure of the first template that
/// fails.
pub open spec fn rewritten(
    replace: Seq<(String, String)>,
    table: Map<Seq<char>, Seq<char>>,
    r: RecordView,
    n: nat,
) -> Result<RecordView, TemplateFault>
    decreases n,
{
    if n == 0 {
        Ok(r)
    } else {
        match rewritten(replace, table, r, (n - 1) as nat) {
            Ok(current) => match expanded(replace[n - 1].1@, 0, value_of(table, current)) {
                Ok(text) => Ok(current.put(replace[n - 1].0@, text)),
                Err(fault) => Err(fault),
            },
            Err(fault) => Err(fault),
        }
    }
}

/// The record as the first `n` replace entries leave it: as [`rewritten`]
/// gives it, or, once a template has failed, as the entries before the
/// failing one left it.
pub open spec fn rewritten_so_far(
    replace: Seq<(String, String)>,
    table: Map<Seq<char>, Seq<char>>,
    r: RecordView,
    n: nat,
) -> RecordView
    decreases n,
{
    if n == 0 {
        r
    } else {
        match rewritten(replace, table, r, (n - 1) as nat) {
            Ok(current) => match expanded(replace[n - 1].1@, 0, value_of(table, current)) {
                Ok(text) => current.put(replace[n - 1].0@, text),
                Err(_) => current,
            },
            Err(_) => rewritten_so_far(replace, table, r, (n - 1) as nat),
        }
    }
}

/// Once a replace entry has failed, the record stays as that entry found it.
pub proof fn lemma_rewritten_so_far_stops(
    replace: Seq<(String, String)>,
    table: Map<Seq<char>, Seq<char>>,
    r: RecordView,
    n: nat,
    m: nat,
)
    requires
        n <= m,
        rewritten(replace, table, r, n) is Err,
    ensures
        rewritten_so_far(replace, table, r, m) == rewritten_so_far(replace, table, r, n),
    decreases m,
{
    if n < m {
        lemma_rewritten_so_far_stops(replace, table, r, n, (m - 1) as nat);
        lemma_rewritten_fails(replace, table, r, n, (m - 1) as nat);
    }
}

/// Once a search entry has failed, every longer prefix of the entries fails.
pub proof fn lemma_capture_table_fails(search: Seq<(String, Regex)>, r: RecordView, n: nat, m: nat)
    requires
        n <= m,
        capture_table(search, r, n) is None,
    ensures
        capture_table(search, r, m) is None,
    decreases m,
{
    if n < m {
        lemma_capture_table_fails(search, r, n, (m - 1) as nat);
    }
}

/// Once a replace entry has failed, every longer prefix fails the same way.
pub proof fn lemma_rewritten_fails(
    replace: Seq<(String, String)>,
    table: Map<Seq<char>, Seq<char>>,
    r: RecordView,
    n: nat,
    m: nat,
)
    requires
        n <= m,
        rewritten(replace, table, r, n) is Err,
    ensures
        rewritten(replace, table, r, m) == rewritten(replace, table, r, n),
    decreases m,
{
    if n < m {
        lemma_rewritten_fails(replace, table, r, n, (m - 1) as nat);
    }
}

/// A rewriting rule as it is declared: patterns and templates as text.
#[derive(Debug)]
pub struct MatcherBuilder {
    pub label: Option<String>,
    /// Slot name and the pattern its text must match. A slot may be named
    /// more than once: every entry must match.
    pub search: Vec<(String, String)>,
    /// Slot name and the template of its new text. The entries are applied
    /// in order, so of two entries for one slot the later writes last.
    pub replace: Vec<(String, String)>,
}

/// A rewriting rule: every search pattern must match its slot of the
/// record; then every replace template is filled and written to its slot.
#[derive(Debug)]
pub struct Matcher {
    /// Slot name and the pattern its text must match. A slot may be named
    /// more than once: every entry must match, and where two entries
    /// capture under one name the later one's text stays.
    pub search: Vec<(String, Regex)>,
    /// Slot name and the template of its new text. The entries are applied
    /// in order, so of two entries for one slot the later writes last.
    pub replace: Vec<(String, String)>,
}

impl MatcherBuilder {
    /// Whether the first `n` search patterns are valid expressions.
    pub open spec fn valid_upto(&self, n: int) -> bool {
        forall|i: int| 0 <= i < n ==> compiled((#[trigger] self.search@[i]).1@) is Some
    }

    /// Whether every search pattern is a valid expression.
    pub open spec fn valid(&self) -> bool {
        self.valid_upto(self.search@.len() as int)
    }

    /// The position of the first search pattern that is not a valid
    /// expression.
    pub open spec fn first_invalid(&self) -> int {
        choose|i: int|
            0 <= i < self.search@.len() && self.valid_upto(i) && compiled(
                (#[trigger] self.search@[i]).1@,
            ) is None
    }

    /// The refusal of a rule that is not valid: it names the first search
    /// pattern that is not a valid expression.
    pub open spec fn fault(&self) -> ConfigFault {
        ConfigFault::InvalidPattern(self.search@[self.first_invalid()].1@)
    }

    /// Whether `m` is what this rule compiles to: the same slots and
    /// templates, each pattern compiled.
    pub open spec fn builds(&self, m: Matcher) -> bool {
        &&& m.replace@ == self.replace@
        &&& m.search@.len() == self.search@.len()
        &&& forall|i: int|
            0 <= i < self.search@.len() ==> (#[trigger] m.search@[i]).0 == self.search@[i].0
                && compiled(self.search@[i].1@) == Some(m.search@[i].1)
    }

    /// The pattern at `i` is the only one before which all are valid and
    /// which itself is not.
    pub proof fn lemma_first_invalid(&self, i: int)
        requires
            0 <= i < self.search@.len(),
            self.valid_upto(i),
            compiled(self.search@[i].1@) is None,
        ensures
            self.first_invalid() == i,
            !self.valid(),
    {
        let j = self.first_invalid();
        let _ = self.search@[i];
        if j < i {
            let _ = self.search@[j];
        }
    }

    /// Compiles the search patterns. The rule is refused with the first
    /// pattern, in declaration order, that is not a valid expression.
    pub fn compile(&self) -> (made: Result<Matcher, ConfigError>)
        ensures
            match made {
                Ok(m) => self.valid() && self.builds(m),
                Err(e) => !self.valid() && e@ == self.fault(),
            },
    {
        let mut search: Vec<(String, Regex)> = Vec::new();
        let mut i: usize = 0;
        while i < self.search.len()
            invariant
                i <= self.search@.len(),
                self.valid_upto(i as int),
                search@.len() == i,
                forall|j: int|
                    0 <= j < i ==> (#[trigger] search@[j]).0 == self.search@[j].0 && compiled(
                        self.search@[j].1@,
                    ) == Some(search@[j].1),
            decreases self.search@.len() - i,
        {
            match compile(self.search[i].1.as_str()) {
                Some(re) => {
                    search.push((self.search[i].0.clone(), re));
                },
                None => {
                    proof {
                        self.lemma_first_invalid(i as int);
                    }
                    return Err(ConfigError::InvalidPattern(self.search[i].1.clone()));
                },
            }
            i += 1;
        }
        let mut replace: Vec<(String, String)> = Vec::new();
        let mut k: usize = 0;
        while k < self.replace.len()
            invariant
                k <= self.replace@.len(),
                replace@ == self.replace@.take(k as int),
            decreases self.replace@.len() - k,
        {
            replace.push((self.replace[k].0.clone(), self.replace[k].1.clone()));
            assert(replace@ =~= self.replace@.take(k + 1));
            k += 1;
        }
        assert(self.replace@.take(k as int) =~= self.replace@);
        Ok(Matcher { search, replace })
    }

    /// Compiles the rule; see [`MatcherBuilder::compile`].
    pub fn build(self) -> (made: Result<Matcher, ConfigError>)
        ensures
            match made {
                Ok(m) => self.valid() && self.builds(m),
                Err(e) => !self.valid() && e@ == self.fault(),
            },
    {
        self.compile()
    }
}

impl Default for Matcher {
    /// The rule with nothing to match and nothing to write: it applies to
    /// every record.
    fn default() -> (m: Matcher)
        ensures
            m.search@.len() == 0,
            m.replace@.len() == 0,
    {
        Matcher { search: Vec::new(), replace: Vec::new() }
    }
}

impl Matcher {
    /// Builds the declared rule; see [`MatcherBuilder::build`].
    pub fn from(builder: MatcherBuilder) -> (made: Result<Matcher, ConfigError>)
        ensures
            match made {
                Ok(m) => builder.valid() && builder.builds(m),
                Err(e) => !builder.valid() && e@ == builder.fault(),
            },
    {
        builder.build()
    }

    /// Whether the first `n` search entries each name a slot that the
    /// record has and match its text.
    pub open spec fn matches_upto(&self, r: RecordView, n: int) -> bool {
        forall|i: int|
            0 <= i < n ==> match r.lookup((#[trigger] self.search@[i]).0@) {
                Some(text) => accepts(self.search@[i].1, text),
                None => false,
            }
    }

    /// Enters the named groups of one match into the capture table.
    pub fn collect_groups(captures: &mut Vec<(String, String)>, found: Vec<Group>)
        ensures
            pairs_map(final(captures)@) == with_groups(
                pairs_map(old(captures)@),
                groups_view(Some(found))->Some_0,
                found@.len(),
            ),
    {
        let ghost start = pairs_map(captures@);
        let ghost view = groups_view(Some(found))->Some_0;
        let mut j: usize = 0;
        while j < found.len()
            invariant
                j <= found@.len(),
                view == groups_view(Some(found))->Some_0,
                pairs_map(captures@) == with_groups(start, view, j as nat),
            decreases found@.len() - j,
        {
            let ghost before = captures@;
            match (&found[j].0, &found[j].1) {
                (Some(name), Some(text)) => {
                    captures.push((name.clone(), text.clone()));
                    assert(captures@.drop_last() =~= before);
                },
                _ => {},
            }
            j += 1;
        }
    }

    /// Matches every search entry against the record and collects the
    /// named captures; `None` where an entry names a slot that the record
    /// lacks or does not match its text.
    pub fn collect_captures(&self, record: &Record) -> (captures: Option<Vec<(String, String)>>)
        requires
            record.wf(),
        ensures
            captures.is_some() == self.matches_upto(record@, self.search@.len() as int),
            match captures {
                Some(c) => capture_table(self.search@, record@, self.search@.len()) == Some(
                    pairs_map(c@),
                ),
                None => capture_table(self.search@, record@, self.search@.len()) is None,
            },
    {
        let mut captures: Vec<(String, String)> = Vec::new();
        let mut i: usize = 0;
        while i < self.search.len()
            invariant
                i <= self.search@.len(),
                record.wf(),
                self.matches_upto(record@, i as int),
                capture_table(self.search@, record@, i as nat) == Some(pairs_map(captures@)),
            decreases self.search@.len() - i,
        {
            proof {
                reveal_with_fuel(capture_table, 2);
            }
            let found = match record.get(self.search[i].0.as_str()) {
                Some(text) => capture_groups(&self.search[i].1, text),
                None => None,
            };
            match found {
                Some(found) => {
                    Matcher::collect_groups(&mut captures, found);
                },
                None => {
                    proof {
                        lemma_capture_table_fails(
                            self.search@,
                            record@,
                            (i + 1) as nat,
                            self.search@.len(),
                        );
                        assert(!self.matches_upto(record@, self.search@.len() as int)) by {
                            let _ = self.search@[i as int];
                        }
                    }
                    return None;
                },
            }
            i += 1;
        }
        Some(captures)
    }

    /// Fills one template from the capture table and the record.
    pub fn fill(captures: &Vec<(String, String)>, record: &Record, template: &str) -> (out: Result<
        String,
        TemplateError,
    >)
        requires
            record.wf(),
        ensures
            outcome(out) == expanded(template@, 0, value_of(pairs_map(captures@), record@)),
    {
        let lookup = |key: &str| -> (value: String)
            ensures
                value@ == value_of(pairs_map(captures@), record@)(key@),
            {
                match table_get(captures, key) {
                    Some(text) => text.to_owned(),
                    None => match record.get(key) {
                        Some(text) => text.to_owned(),
                        None => String::new(),
                    },
                }
            };
        assert(crate::template::computes(lookup, value_of(pairs_map(captures@), record@)));
        interpolate(template, lookup)
    }
}

impl Transformer for Matcher {
    open spec fn matches(&self, r: RecordView) -> bool {
        self.matches_upto(r, self.search@.len() as int)
    }

    open spec fn applied(&self, r: RecordView) -> Applied {
        match capture_table(self.search@, r, self.search@.len()) {
            Some(table) => match rewritten(self.replace@, table, r, self.replace@.len()) {
                Ok(after) => Ok((RecordView { transformed: true, ..after }, true)),
                Err(fault) => Err(fault),
            },
            None => Ok((r, false)),
        }
    }

    open spec fn stopped(&self, r: RecordView) -> RecordView {
        match capture_table(self.search@, r, self.search@.len()) {
            Some(table) => rewritten_so_far(self.replace@, table, r, self.replace@.len()),
            None => r,
        }
    }

    fn is_match(&self, record: &Record) -> (yes: bool) {
        let mut i: usize = 0;
        while i < self.search.len()
            invariant
                i <= self.search@.len(),
                record.wf(),
                self.matches_upto(record@, i as int),
            decreases self.search@.len() - i,
        {
            let hit = match record.get(self.search[i].0.as_str()) {
                Some(text) => is_match(&self.search[i].1, text),
                None => false,
            };
            if !hit {
                proof {
                    let _ = self.search@[i as int];
                }
                return false;
            }
            i += 1;
        }
        true
    }

    fn transform(&self, record: &mut Record) -> (fired: Result<bool, TemplateError>) {
        let captures = match self.collect_captures(record) {
            Some(captures) => captures,
            None => {
                return Ok(false);
            },
        };
        let ghost table = pairs_map(captures@);
        let ghost start = record@;
        let mut i: usize = 0;
        while i < self.replace.len()
            invariant
                i <= self.replace@.len(),
                record.wf(),
                table == pairs_map(captures@),
                start == old(record)@,
                capture_table(self.search@, start, self.search@.len()) == Some(table),
                rewritten(self.replace@, table, start, i as nat) == Ok::<
                    RecordView,
                    TemplateFault,
                >(record@),
            decreases self.replace@.len() - i,
        {
            proof {
                reveal_with_fuel(rewritten, 2);
            }
            match Matcher::fill(&captures, record, self.replace[i].1.as_str()) {
                Ok(text) => {
                    let _ = record.replace(self.replace[i].0.as_str(), text);
                },
                Err(e) => {
                    proof {
                        assert(((i + 1) as nat - 1) as nat == i as nat);
                        assert(rewritten(self.replace@, table, start, (i + 1) as nat) == Err::<
                            RecordView,
                            TemplateFault,
                        >(e@));
                        lemma_rewritten_fails(
                            self.replace@,
                            table,
                            start,
                            (i + 1) as nat,
                            self.replace@.len(),
                        );
                        assert(rewritten_so_far(self.replace@, table, start, (i + 1) as nat)
                            == record@);
                        lemma_rewritten_so_far_stops(
                            self.replace@,
                            table,
                            start,
                            (i + 1) as nat,
                            self.replace@.len(),
                        );
                    }
                    return Err(e);
                },
            }
            i += 1;
        }
        record.transformed = true;
        Ok(true)
    }
}

} // verus!

//! Payee resolution: the many spellings of a merchant are replaced by one
//! canonical name.

use crate::pattern::{compile_set, compiled_set, escape, escaped, set_accepts, set_is_match};
use crate::record::{Record, RecordView};
use crate::rule::{Applied, ConfigError, ConfigFault, Transformer};
use crate::template::TemplateError;
use crate::text::texts;
use regex::RegexSet;
use vstd::prelude::*;
use vstd::string::*;

verus! {

/// The expression that an alias stands for: an alias wrapped in `^` and `$`
/// is an expression already, any other is matched literally.
pub open spec fn alias_pattern(alias: Seq<char>) -> Seq<char> {
    if alias.len() > 0 && alias[0] == '^' && alias.last() == '$' {
        alias
    } else {
        escaped(alias)
    }
}

/// The expressions that a list of aliases stands for.
pub open spec fn alias_patterns(aliases: Seq<String>) -> Seq<Seq<char>> {
    Seq::new(aliases.len(), |i: int| alias_pattern(aliases[i]@))
}

/// Turns an alias into the expression it stands for.
pub fn maybe_escape(s: String) -> (out: String)
    ensures
        out@ == alias_pattern(s@),
{
    let n: usize = s.as_str().unicode_len();
    if n > 0 && s.as_str().get_char(0) == '^' && s.as_str().get_char(n - 1) == '$' {
        s
    } else {
        escape(s.as_str())
    }
}

/// The canonical names, among the first `n` entries, whose aliases match
/// `text`, in the order of the entries.
pub open spec fn matching_names(aliases: Seq<(String, RegexSet)>, text: Seq<char>, n: nat) -> Seq<
    Seq<char>,
>
    decreases n,
{
    if n == 0 {
        Seq::empty()
    } else {
        let before = matching_names(aliases, text, (n - 1) as nat);
        if set_accepts(aliases[n - 1].1, text) {
            before.push(aliases[n - 1].0@)
        } else {
            before
        }
    }
}

/// The names found among fewer entries open the list of those found among
/// more.
pub proof fn lemma_matching_names_grow(
    aliases: Seq<(String, RegexSet)>,
    text: Seq<char>,
    n: nat,
    m: nat,
)
    requires
        n <= m,
    ensures
        matching_names(aliases, text, n).len() <= matching_names(aliases, text, m).len(),
        forall|k: int|
            0 <= k < matching_names(aliases, text, n).len() ==> matching_names(aliases, text, m)[k]
                == matching_names(aliases, text, n)[k],
    decreases m,
{
    if n < m {
        lemma_matching_names_grow(aliases, text, n, (m - 1) as nat);
    }
}

/// Some entry matches exactly when the list of matching names is not empty.
pub proof fn lemma_matching_names_some(aliases: Seq<(String, RegexSet)>, text: Seq<char>, n: nat)
    requires
        n <= aliases.len(),
    ensures
        matching_names(aliases, text, n).len() > 0 <==> exists|i: int|
            0 <= i < n && set_accepts((#[trigger] aliases[i]).1, text),
    decreases n,
{
    if n > 0 {
        lemma_matching_names_some(aliases, text, (n - 1) as nat);
        if set_accepts(aliases[n - 1].1, text) {
        } else if exists|i: int| 0 <= i < n && set_accepts((#[trigger] aliases[i]).1, text) {
            let i = choose|i: int| 0 <= i < n && set_accepts((#[trigger] aliases[i]).1, text);
            assert(i < n - 1);
        }
    }
}

/// The names that a resolution reports: all that matched when strict, the
/// first only otherwise.
pub open spec fn reported(all: Seq<Seq<char>>, strict: bool) -> Seq<Seq<char>> {
    if strict || all.len() == 0 {
        all
    } else {
        seq![all[0]]
    }
}

/// The record after resolution: with a match, its payee is the first of
/// `all` and it is marked as transformed; without one it is as it was.
pub open spec fn resolved(r: RecordView, all: Seq<Seq<char>>) -> RecordView {
    if all.len() > 0 {
        RecordView { payee: all[0], transformed: true, ..r }
    } else {
        r
    }
}

/// The lines that warn of an ambiguous payee: none unless two or more
/// names matched; else a heading with the payee as it was read, then one
/// line per name.
pub open spec fn warning_lines(as_read: Seq<char>, names: Seq<Seq<char>>, n: nat) -> Seq<
    Seq<char>,
>
    decreases n,
{
    if names.len() < 2 {
        Seq::empty()
    } else if n == 0 {
        seq!["warning: multiple aliases match payee: "@ + as_read]
    } else {
        warning_lines(as_read, names, (n - 1) as nat).push("       | - "@ + names[n - 1])
    }
}

/// The lines that warn that more than one payee matched `as_read`.
pub fn ambiguity_warning(as_read: &str, names: &Vec<String>) -> (lines: Vec<String>)
    ensures
        texts(lines@) == warning_lines(as_read@, texts(names@), names@.len() as nat),
{
    let mut lines: Vec<String> = Vec::new();
    if names.len() < 2 {
        assert(texts(lines@) =~= Seq::<Seq<char>>::empty());
        return lines;
    }
    lines.push(String::from_str("warning: multiple aliases match payee: ").concat(as_read));
    assert(texts(lines@) =~= warning_lines(as_read@, texts(names@), 0));
    let mut i: usize = 0;
    while i < names.len()
        invariant
            i <= names@.len(),
            names@.len() >= 2,
            texts(lines@) == warning_lines(as_read@, texts(names@), i as nat),
        decreases names@.len() - i,
    {
        let ghost before = texts(lines@);
        lines.push(String::from_str("       | - ").concat(names[i].as_str()));
        assert(texts(lines@) =~= before.push("       | - "@ + names@[i as int]@));
        i += 1;
    }
    lines
}

/// Canonical payee names, each with the set of expressions that its aliases
/// stand for.
#[derive(Debug)]
pub struct Payees {
    /// Canonical name and the set of its aliases. The entries are tried in
    /// order and the first that matches gives the payee; a name that stands
    /// twice is two entries, each tried in its place.
    pub aliases: Vec<(String, RegexSet)>,
    /// Whether every match is reported, so that an ambiguity can be warned
    /// of.
    pub strict: bool,
}

/// Whether the aliases of the first `n` payees all compile.
pub open spec fn aliases_valid_upto(
    map: Seq<(String, Vec<String>)>,
    case_insensitive: bool,
    n: int,
) -> bool {
    forall|i: int|
        0 <= i < n ==> compiled_set(alias_patterns((#[trigger] map[i]).1@), case_insensitive)
            is Some
}

/// The first payee whose aliases do not compile.
pub open spec fn first_invalid_aliases(
    map: Seq<(String, Vec<String>)>,
    case_insensitive: bool,
) -> int {
    choose|i: int|
        0 <= i < map.len() && aliases_valid_upto(map, case_insensitive, i) && compiled_set(
            alias_patterns((#[trigger] map[i]).1@),
            case_insensitive,
        ) is None
}

/// The payee at `i` is the only one before which all aliases compile and
/// whose own do not.
pub proof fn lemma_first_invalid_aliases(
    map: Seq<(String, Vec<String>)>,
    case_insensitive: bool,
    i: int,
)
    requires
        0 <= i < map.len(),
        aliases_valid_upto(map, case_insensitive, i),
        compiled_set(alias_patterns(map[i].1@), case_insensitive) is None,
    ensures
        first_invalid_aliases(map, case_insensitive) == i,
        !aliases_valid_upto(map, case_insensitive, map.len() as int),
{
    let j = first_invalid_aliases(map, case_insensitive);
    let _ = map[i];
    if j < i {
        let _ = map[j];
    } else if i < j {
    }
}

impl Payees {
    /// Whether `self` is what `map` compiles to: one entry per payee, in
    /// order, with the set of its alias expressions.
    pub open spec fn built_from(
        &self,
        map: Seq<(String, Vec<String>)>,
        case_insensitive: bool,
    ) -> bool {
        &&& self.aliases@.len() == map.len()
        &&& forall|i: int|
            0 <= i < map.len() ==> (#[trigger] self.aliases@[i]).0 == map[i].0 && compiled_set(
                alias_patterns(map[i].1@),
                case_insensitive,
            ) == Some(self.aliases@[i].1)
    }

    /// Compiles the aliases of each payee into a set, lenient about
    /// ambiguity. The payees are refused with the first, in order, that has
    /// an alias which is not a valid expression.
    pub fn new(map: &Vec<(String, Vec<String>)>, case_insensitive: bool) -> (made: Result<
        Payees,
        ConfigError,
    >)
        ensures
            match made {
                Ok(p) => aliases_valid_upto(map@, case_insensitive, map@.len() as int)
                    && !p.strict && p.built_from(map@, case_insensitive),
                Err(e) => !aliases_valid_upto(map@, case_insensitive, map@.len() as int) && e@
                    == ConfigFault::InvalidAlias(
                    map@[first_invalid_aliases(map@, case_insensitive)].0@,
                ),
            },
    {
        let mut aliases: Vec<(String, RegexSet)> = Vec::new();
        let mut i: usize = 0;
        while i < map.len()
            invariant
                i <= map@.len(),
                aliases@.len() == i,
                aliases_valid_upto(map@, case_insensitive, i as int),
                forall|j: int|
                    0 <= j < i ==> (#[trigger] aliases@[j]).0 == map@[j].0 && compiled_set(
                        alias_patterns(map@[j].1@),
                        case_insensitive,
                    ) == Some(aliases@[j].1),
            decreases map@.len() - i,
        {
            let mut sources: Vec<String> = Vec::new();
            let mut k: usize = 0;
            while k < map[i].1.len()
                invariant
                    i < map@.len(),
                    k <= map@[i as int].1@.len(),
                    sources@.len() == k,
                    forall|j: int|
                        0 <= j < k ==> (#[trigger] sources@[j])@ == alias_pattern(
                            map@[i as int].1@[j]@,
                        ),
                decreases map@[i as int].1@.len() - k,
            {
                sources.push(maybe_escape(map[i].1[k].clone()));
                k += 1;
            }
            assert(texts(sources@) =~= alias_patterns(map@[i as int].1@));
            match compile_set(&sources, case_insensitive) {
                Some(set) => {
                    aliases.push((map[i].0.clone(), set));
                },
                None => {
                    proof {
                        lemma_first_invalid_aliases(map@, case_insensitive, i as int);
                    }
                    return Err(ConfigError::InvalidAlias(map[i].0.clone()));
                },
            }
            i += 1;
        }
        Ok(Payees { aliases, strict: false })
    }

    /// The same payees, strict about ambiguity.
    pub fn into_strict(self) -> (p: Payees)
        ensures
            p.strict,
            p.aliases == self.aliases,
    {
        Payees { aliases: self.aliases, strict: true }
    }

    /// Compiles payees given directly, with regard to case and lenient
    /// about ambiguity.
    pub fn from(map: Vec<(String, Vec<String>)>) -> (made: Result<Payees, ConfigError>)
        ensures
            match made {
                Ok(p) => aliases_valid_upto(map@, false, map@.len() as int) && !p.strict
                    && p.built_from(map@, false),
                Err(e) => !aliases_valid_upto(map@, false, map@.len() as int) && e@
                    == ConfigFault::InvalidAlias(map@[first_invalid_aliases(map@, false)].0@),
            },
    {
        Payees::new(&map, false)
    }

    /// Sets the payee of `record` to the first canonical name whose aliases
    /// match it, marks the record as transformed, and returns the names that
    /// matched: all of them when
    /// strict, so that a caller can warn of an ambiguity, else the first
    /// only. Every entry is matched against the payee as it was on entry.
    pub fn resolve(&self, record: &mut Record) -> (names: Vec<String>)
        requires
            old(record).wf(),
        ensures
            final(record).wf(),
            texts(names@) == reported(
                matching_names(self.aliases@, old(record)@.payee, self.aliases@.len()),
                self.strict,
            ),
            final(record)@ == resolved(
                old(record)@,
                matching_names(self.aliases@, old(record)@.payee, self.aliases@.len()),
            ),
    {
        let as_read = record.payee.clone();
        let ghost start = record@;
        let mut names: Vec<String> = Vec::new();
        let mut i: usize = 0;
        assert(texts(names@) =~= matching_names(self.aliases@, as_read@, 0));
        while i < self.aliases.len()
            invariant
                i <= self.aliases@.len(),
                record.wf(),
                start == old(record)@,
                as_read@ == start.payee,
                texts(names@) == matching_names(self.aliases@, as_read@, i as nat),
                !self.strict ==> names@.len() == 0,
                record@ == resolved(start, matching_names(self.aliases@, as_read@, i as nat)),
            decreases self.aliases@.len() - i,
        {
            if set_is_match(&self.aliases[i].1, as_read.as_str()) {
                let ghost before = texts(names@);
                if names.len() == 0 {
                    record.payee = self.aliases[i].0.clone();
                    record.transformed = true;
                }
                names.push(self.aliases[i].0.clone());
                assert(texts(names@) =~= before.push(self.aliases@[i as int].0@));
                if !self.strict {
                    proof {
                        lemma_matching_names_grow(
                            self.aliases@,
                            as_read@,
                            (i + 1) as nat,
                            self.aliases@.len(),
                        );
                        assert(texts(names@) =~= seq![self.aliases@[i as int].0@]);
                    }
                    return names;
                }
            }
            i += 1;
        }
        names
    }
}

impl Payees {
    /// Resolution fires on a record exactly when the resolver matches it.
    pub proof fn lemma_fires_iff_matches(&self, r: RecordView)
        ensures
            self.applied(r) is Ok,
            self.applied(r)->Ok_0.1 == self.matches(r),
    {
        lemma_matching_names_some(self.aliases@, r.payee, self.aliases@.len());
    }

    /// Whatever else matched, resolution writes the canonical name of the
    /// first entry that matches into the payee and marks the record as
    /// transformed; nothing else of the record changes.
    pub proof fn lemma_first_match_wins(&self, r: RecordView, i: int)
        requires
            0 <= i < self.aliases@.len(),
            set_accepts(self.aliases@[i].1, r.payee),
            forall|j: int| 0 <= j < i ==> !set_accepts((#[trigger] self.aliases@[j]).1, r.payee),
        ensures
            self.applied(r) == Ok::<(RecordView, bool), crate::template::TemplateFault>(
                (RecordView { payee: self.aliases@[i].0@, transformed: true, ..r }, true),
            ),
    {
        lemma_matching_names_some(self.aliases@, r.payee, i as nat);
        assert(matching_names(self.aliases@, r.payee, i as nat).len() == 0);
        assert(matching_names(self.aliases@, r.payee, (i + 1) as nat) =~= seq![
            self.aliases@[i].0@,
        ]);
        lemma_matching_names_grow(self.aliases@, r.payee, (i + 1) as nat, self.aliases@.len());
    }
}

impl Default for Payees {
    /// No payees, strict about ambiguity.
    fn default() -> (p: Payees)
        ensures
            p.strict,
            p.aliases@.len() == 0,
    {
        Payees { aliases: Vec::new(), strict: true }
    }
}

impl Transformer for Payees {
    open spec fn matches(&self, r: RecordView) -> bool {
        exists|i: int|
            0 <= i < self.aliases@.len() && set_accepts((#[trigger] self.aliases@[i]).1, r.payee)
    }

    open spec fn applied(&self, r: RecordView) -> Applied {
        let all = matching_names(self.aliases@, r.payee, self.aliases@.len());
        Ok((resolved(r, all), all.len() > 0))
    }

    /// Resolution has no template and is never stopped.
    open spec fn stopped(&self, r: RecordView) -> RecordView {
        r
    }

    fn is_match(&self, record: &Record) -> (yes: bool) {
        let mut i: usize = 0;
        while i < self.aliases.len()
            invariant
                i <= self.aliases@.len(),
                forall|j: int|
                    0 <= j < i ==> !set_accepts((#[trigger] self.aliases@[j]).1, record@.payee),
            decreases self.aliases@.len() - i,
        {
            if set_is_match(&self.aliases[i].1, record.payee.as_str()) {
                proof {
                    let _ = self.aliases@[i as int];
                }
                return true;
            }
            i += 1;
        }
        false
    }

    /// Resolves the payee and tells whether an entry matched. Through this
    /// method a strict resolver gives no warning of an ambiguity: the names
    /// that matched come from [`Payees::resolve`], and the lines that warn
    /// of them from [`ambiguity_warning`].
    fn transform(&self, record: &mut Record) -> (fired: Result<bool, TemplateError>) {
        let names = self.resolve(record);
        assert(texts(names@).len() == names@.len());
        Ok(names.len() != 0)
    }
}

} // verus!

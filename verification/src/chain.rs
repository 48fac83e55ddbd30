//! Rules in sequence: every rule is applied in turn, and the chain fires
//! when one of them did.

use crate::matcher::{Matcher, MatcherBuilder};
use crate::payees::{
    aliases_valid_upto, ambiguity_warning, first_invalid_aliases, matching_names, reported,
    warning_lines, Payees,
};
use crate::record::{Record, RecordView};
use crate::rule::{Applied, ConfigError, ConfigFault, Transformer};
use crate::template::TemplateError;
use crate::text::texts;
use vstd::prelude::*;

verus! {

/// One rule of a chain.
#[derive(Debug)]
pub enum Rule {
    FieldRewrite(Matcher),
    PayeeResolve(Payees),
}

impl Transformer for Rule {
    open spec fn matches(&self, r: RecordView) -> bool {
        match self {
            Rule::FieldRewrite(m) => m.matches(r),
            Rule::PayeeResolve(p) => p.matches(r),
        }
    }

    open spec fn applied(&self, r: RecordView) -> Applied {
        match self {
            Rule::FieldRewrite(m) => m.applied(r),
            Rule::PayeeResolve(p) => p.applied(r),
        }
    }

    open spec fn stopped(&self, r: RecordView) -> RecordView {
        match self {
            Rule::FieldRewrite(m) => m.stopped(r),
            Rule::PayeeResolve(p) => p.stopped(r),
        }
    }

    fn is_match(&self, record: &Record) -> (yes: bool) {
        match self {
            Rule::FieldRewrite(m) => m.is_match(record),
            Rule::PayeeResolve(p) => p.is_match(record),
        }
    }

    /// Applies the rule. A payee resolver gives no warning through this
    /// method; [`Rule::transform_reporting`] hands the warning lines out.
    fn transform(&self, record: &mut Record) -> (fired: Result<bool, TemplateError>) {
        match self {
            Rule::FieldRewrite(m) => m.transform(record),
            Rule::PayeeResolve(p) => p.transform(record),
        }
    }
}

/// The warning that a rule gives on a record: none from a rewriting rule;
/// from a payee resolver the lines that tell of an ambiguous payee.
pub open spec fn rule_warnings(rule: Rule, r: RecordView) -> Seq<Seq<char>> {
    match rule {
        Rule::FieldRewrite(_) => Seq::empty(),
        Rule::PayeeResolve(p) => {
            let names = reported(
                matching_names(p.aliases@, r.payee, p.aliases@.len()),
                p.strict,
            );
            warning_lines(r.payee, names, names.len())
        },
    }
}

/// The warnings that the first `n` rules of a chain give, each on the
/// record as the rules before it left it.
pub open spec fn chain_warnings(rules: Seq<Rule>, r: RecordView, n: nat) -> Seq<Seq<char>>
    decreases n,
{
    if n == 0 {
        Seq::empty()
    } else {
        let before = chain_warnings(rules, r, (n - 1) as nat);
        match chain_applied(rules, r, (n - 1) as nat) {
            Ok((current, _)) => before + rule_warnings(rules[n - 1], current),
            Err(_) => before,
        }
    }
}

/// After a rule has failed, no further warning is given.
pub proof fn lemma_chain_warnings_stop(rules: Seq<Rule>, r: RecordView, n: nat, m: nat)
    requires
        n <= m,
        chain_applied(rules, r, n) is Err,
    ensures
        chain_warnings(rules, r, m) == chain_warnings(rules, r, n),
    decreases m,
{
    if n < m {
        lemma_chain_warnings_stop(rules, r, n, (m - 1) as nat);
        lemma_chain_fails(rules, r, n, (m - 1) as nat);
    }
}

impl Rule {
    /// Applies the rule as [`Transformer::transform`] does and appends to
    /// `warnings` the lines that warn of an ambiguous payee.
    pub fn transform_reporting(&self, record: &mut Record, warnings: &mut Vec<String>) -> (fired:
        Result<bool, TemplateError>)
        requires
            old(record).wf(),
        ensures
            final(record).wf(),
            match self.applied(old(record)@) {
                Ok((after, did)) => fired == Ok::<bool, TemplateError>(did) && final(record)@
                    == after,
                Err(fault) => fired is Err && fired->Err_0@ == fault && final(record)@
                    == self.stopped(old(record)@),
            },
            texts(final(warnings)@) == texts(old(warnings)@) + rule_warnings(*self, old(record)@),
    {
        match self {
            Rule::FieldRewrite(m) => {
                assert(texts(warnings@) + Seq::<Seq<char>>::empty() =~= texts(warnings@));
                m.transform(record)
            },
            Rule::PayeeResolve(p) => {
                let as_read = record.payee.clone();
                let names = p.resolve(record);
                let mut lines = ambiguity_warning(as_read.as_str(), &names);
                let ghost before = warnings@;
                let ghost added = lines@;
                warnings.append(&mut lines);
                assert(texts(warnings@) =~= texts(before) + texts(added));
                assert(texts(names@).len() == names@.len());
                Ok(names.len() != 0)
            },
        }
    }
}

/// Whether some rule of the chain applies to the record.
pub open spec fn chain_matches<T: Transformer>(rules: Seq<T>, r: RecordView) -> bool {
    exists|i: int| 0 <= i < rules.len() && (#[trigger] rules[i]).matches(r)
}

/// What the first `n` rules of the chain make of the record: each rule
/// works on what the rules before it left, whether or not they fired, and
/// the chain has fired when one of them has. The first template failure
/// stops the chain.
pub open spec fn chain_applied<T: Transformer>(rules: Seq<T>, r: RecordView, n: nat) -> Applied
    decreases n,
{
    if n == 0 {
        Ok((r, false))
    } else {
        match chain_applied(rules, r, (n - 1) as nat) {
            Ok((current, fired)) => match rules[n - 1].applied(current) {
                Ok((next, did)) => Ok((next, did || fired)),
                Err(fault) => Err(fault),
            },
            Err(fault) => Err(fault),
        }
    }
}

/// The record as the first `n` rules of the chain leave it: as
/// [`chain_applied`] gives it, or, once a rule has failed, as the failing
/// rule left it.
pub open spec fn chain_stopped<T: Transformer>(rules: Seq<T>, r: RecordView, n: nat) -> RecordView
    decreases n,
{
    if n == 0 {
        r
    } else {
        match chain_applied(rules, r, (n - 1) as nat) {
            Ok((current, _)) => match rules[n - 1].applied(current) {
                Ok((next, _)) => next,
                Err(_) => rules[n - 1].stopped(current),
            },
            Err(_) => chain_stopped(rules, r, (n - 1) as nat),
        }
    }
}

/// Once a rule has failed, the record stays as the failing rule left it.
pub proof fn lemma_chain_stopped_stops<T: Transformer>(
    rules: Seq<T>,
    r: RecordView,
    n: nat,
    m: nat,
)
    requires
        n <= m,
        chain_applied(rules, r, n) is Err,
    ensures
        chain_stopped(rules, r, m) == chain_stopped(rules, r, n),
    decreases m,
{
    if n < m {
        lemma_chain_stopped_stops(rules, r, n, (m - 1) as nat);
        lemma_chain_fails(rules, r, n, (m - 1) as nat);
    }
}

/// Once a rule has failed, every longer prefix of the chain fails the same
/// way.
pub proof fn lemma_chain_fails<T: Transformer>(rules: Seq<T>, r: RecordView, n: nat, m: nat)
    requires
        n <= m,
        chain_applied(rules, r, n) is Err,
    ensures
        chain_applied(rules, r, m) == chain_applied(rules, r, n),
    decreases m,
{
    if n < m {
        lemma_chain_fails(rules, r, n, (m - 1) as nat);
    }
}

/// A chain that ran to its end has fired exactly when some rule fired on
/// the record as the rules before it left it, whatever those rules did.
pub proof fn lemma_chain_fires_iff_a_rule_fired<T: Transformer>(
    rules: Seq<T>,
    r: RecordView,
    n: nat,
)
    requires
        n <= rules.len(),
        chain_applied(rules, r, n) is Ok,
    ensures
        forall|i: int| 0 <= i <= n ==> (#[trigger] chain_applied(rules, r, i as nat)) is Ok,
        chain_applied(rules, r, n)->Ok_0.1 <==> exists|i: int|
            0 <= i < n && (#[trigger] rules[i]).applied(
                chain_applied(rules, r, i as nat)->Ok_0.0,
            ) matches Ok((_, true)),
    decreases n,
{
    if n > 0 {
        let m = (n - 1) as nat;
        lemma_chain_fires_iff_a_rule_fired(rules, r, m);
        let before = chain_applied(rules, r, m)->Ok_0;
        let step = rules[n - 1].applied(before.0);
        assert(step is Ok);
        if step->Ok_0.1 {
            assert(rules[n - 1].applied(chain_applied(rules, r, m)->Ok_0.0) matches Ok((_, true)));
        } else if before.1 {
            let i = choose|i: int|
                0 <= i < m && (#[trigger] rules[i]).applied(
                    chain_applied(rules, r, i as nat)->Ok_0.0,
                ) matches Ok((_, true));
            assert(0 <= i < n);
        } else {
            if exists|i: int|
                0 <= i < n && (#[trigger] rules[i]).applied(
                    chain_applied(rules, r, i as nat)->Ok_0.0,
                ) matches Ok((_, true)) {
                let i = choose|i: int|
                    0 <= i < n && (#[trigger] rules[i]).applied(
                        chain_applied(rules, r, i as nat)->Ok_0.0,
                    ) matches Ok((_, true));
                assert(i < m);
            }
        }
    }
}

/// Whether some rule of `rules` applies to `record`.
pub fn any_match<T: Transformer>(rules: &Vec<T>, record: &Record) -> (yes: bool)
    requires
        record.wf(),
    ensures
        yes == chain_matches(rules@, record@),
{
    let mut i: usize = 0;
    while i < rules.len()
        invariant
            i <= rules@.len(),
            record.wf(),
            forall|j: int| 0 <= j < i ==> !(#[trigger] rules@[j]).matches(record@),
        decreases rules@.len() - i,
    {
        if rules[i].is_match(record) {
            proof {
                let _ = rules@[i as int];
            }
            return true;
        }
        i += 1;
    }
    false
}

/// Applies every rule of `rules` to `record` in order, whether or not the
/// earlier ones fired, and tells whether one of them fired. The first
/// template failure stops the chain and is returned.
pub fn transform_all<T: Transformer>(rules: &Vec<T>, record: &mut Record) -> (fired: Result<
    bool,
    TemplateError,
>)
    requires
        old(record).wf(),
    ensures
        final(record).wf(),
        match chain_applied(rules@, old(record)@, rules@.len()) {
            Ok((after, did)) => fired == Ok::<bool, TemplateError>(did) && final(record)@ == after,
            Err(fault) => fired is Err && fired->Err_0@ == fault && final(record)@
                == chain_stopped(rules@, old(record)@, rules@.len()),
        },
{
    let ghost start = record@;
    let mut any: bool = false;
    let mut i: usize = 0;
    while i < rules.len()
        invariant
            i <= rules@.len(),
            record.wf(),
            start == old(record)@,
            chain_applied(rules@, start, i as nat) == Ok::<(RecordView, bool), crate::template::TemplateFault>((record@, any)),
        decreases rules@.len() - i,
    {
        proof {
            reveal_with_fuel(chain_applied, 2);
            assert(((i + 1) as nat - 1) as nat == i as nat);
        }
        match rules[i].transform(record) {
            Ok(did) => {
                any = did || any;
            },
            Err(e) => {
                proof {
                    assert(chain_applied(rules@, start, (i + 1) as nat) is Err);
                    lemma_chain_fails(rules@, start, (i + 1) as nat, rules@.len());
                    assert(chain_stopped(rules@, start, (i + 1) as nat) == record@);
                    lemma_chain_stopped_stops(rules@, start, (i + 1) as nat, rules@.len());
                }
                return Err(e);
            },
        }
        i += 1;
    }
    Ok(any)
}

impl Transformer for Vec<Matcher> {
    open spec fn matches(&self, r: RecordView) -> bool {
        chain_matches(self@, r)
    }

    open spec fn applied(&self, r: RecordView) -> Applied {
        chain_applied(self@, r, self@.len())
    }

    open spec fn stopped(&self, r: RecordView) -> RecordView {
        chain_stopped(self@, r, self@.len())
    }

    fn is_match(&self, record: &Record) -> (yes: bool) {
        any_match(self, record)
    }

    fn transform(&self, record: &mut Record) -> (fired: Result<bool, TemplateError>) {
        transform_all(self, record)
    }
}

/// A rule set as it is declared.
#[derive(Debug)]
pub struct Rules {
    /// Rewriting rules applied before payees are resolved.
    pub pre_transform: Vec<MatcherBuilder>,
    /// Canonical payee names, each with its aliases, tried in this order.
    /// A name that stands twice is two entries, each tried in its place.
    pub payees: Vec<(String, Vec<String>)>,
    /// Rewriting rules applied after payees are resolved.
    pub post_transform: Vec<MatcherBuilder>,
}

/// Whether the first `n` declared rules are valid.
pub open spec fn builders_valid_upto(list: Seq<MatcherBuilder>, n: int) -> bool {
    forall|i: int| 0 <= i < n ==> (#[trigger] list[i]).valid()
}

/// The position of the first declared rule that is not valid.
pub open spec fn first_invalid_builder(list: Seq<MatcherBuilder>) -> int {
    choose|i: int|
        0 <= i < list.len() && builders_valid_upto(list, i) && !(#[trigger] list[i]).valid()
}

/// The rule at `i` is the only one before which all are valid and which
/// itself is not.
pub proof fn lemma_first_invalid_builder(list: Seq<MatcherBuilder>, i: int)
    requires
        0 <= i < list.len(),
        builders_valid_upto(list, i),
        !list[i].valid(),
    ensures
        first_invalid_builder(list) == i,
        !builders_valid_upto(list, list.len() as int),
{
    let j = first_invalid_builder(list);
    let _ = list[i];
    if j < i {
        let _ = list[j];
    }
}

impl Rules {
    /// Whether every pattern and every alias of the rule set compiles;
    /// aliases are compiled without regard to case.
    pub open spec fn valid(&self) -> bool {
        &&& builders_valid_upto(self.pre_transform@, self.pre_transform@.len() as int)
        &&& aliases_valid_upto(self.payees@, true, self.payees@.len() as int)
        &&& builders_valid_upto(self.post_transform@, self.post_transform@.len() as int)
    }

    /// The refusal of a rule set that is not valid: that of the first part
    /// that does not compile, the rules before payee resolution first, then
    /// the payees, then the rules after.
    pub open spec fn fault(&self) -> ConfigFault {
        if !builders_valid_upto(self.pre_transform@, self.pre_transform@.len() as int) {
            self.pre_transform@[first_invalid_builder(self.pre_transform@)].fault()
        } else if !aliases_valid_upto(self.payees@, true, self.payees@.len() as int) {
            ConfigFault::InvalidAlias(self.payees@[first_invalid_aliases(self.payees@, true)].0@)
        } else {
            self.post_transform@[first_invalid_builder(self.post_transform@)].fault()
        }
    }
}

/// Whether the rules of `chain` from `at` on are what `list` compiles to.
pub open spec fn rewrites_at(chain: Seq<Rule>, at: int, list: Seq<MatcherBuilder>) -> bool {
    &&& at + list.len() <= chain.len()
    &&& forall|i: int|
        0 <= i < list.len() ==> (#[trigger] chain[at + i]) is FieldRewrite && list[i].builds(
            chain[at + i]->FieldRewrite_0,
        )
}

/// Compiles the declared rules and appends them to `chain` in order.
fn push_rewrites(chain: &mut Vec<Rule>, list: &Vec<MatcherBuilder>) -> (done: Result<
    (),
    ConfigError,
>)
    ensures
        match done {
            Ok(_) => {
                &&& builders_valid_upto(list@, list@.len() as int)
                &&& final(chain)@.len() == old(chain)@.len() + list@.len()
                &&& final(chain)@.take(old(chain)@.len() as int) == old(chain)@
                &&& rewrites_at(final(chain)@, old(chain)@.len() as int, list@)
            },
            Err(e) => !builders_valid_upto(list@, list@.len() as int) && e@
                == list@[first_invalid_builder(list@)].fault(),
        },
{
    let ghost start = chain@;
    let mut i: usize = 0;
    assert(chain@.take(start.len() as int) =~= start);
    while i < list.len()
        invariant
            i <= list@.len(),
            builders_valid_upto(list@, i as int),
            chain@.len() == start.len() + i,
            chain@.take(start.len() as int) == start,
            rewrites_at(chain@, start.len() as int, list@.take(i as int)),
        decreases list@.len() - i,
    {
        match list[i].compile() {
            Ok(m) => {
                let ghost before = chain@;
                chain.push(Rule::FieldRewrite(m));
                proof {
                    assert(chain@.take(start.len() as int) =~= before.take(start.len() as int));
                    assert forall|j: int| 0 <= j < i + 1 implies (#[trigger] chain@[start.len()
                        + j]) is FieldRewrite && list@.take(i + 1)[j].builds(
                        chain@[start.len() + j]->FieldRewrite_0,
                    ) by {
                        if j < i {
                            assert(chain@[start.len() + j] == before[start.len() + j]);
                            assert(list@.take(i as int)[j] == list@.take(i + 1)[j]);
                        }
                    }
                }
            },
            Err(e) => {
                proof {
                    lemma_first_invalid_builder(list@, i as int);
                }
                return Err(e);
            },
        }
        i += 1;
    }
    assert(list@.take(i as int) =~= list@);
    Ok(())
}

/// The canonical pipeline: the rewriting rules declared before payee
/// resolution, then one strict payee resolver, then the rewriting rules
/// declared after it.
#[derive(Debug)]
pub struct MrClean {
    pub transformers: Vec<Rule>,
}

impl MrClean {
    /// Whether `self` is the pipeline of the rule set `r`.
    pub open spec fn built_from(&self, r: Rules) -> bool {
        let chain = self.transformers@;
        let pre = r.pre_transform@.len() as int;
        &&& chain.len() == pre + 1 + r.post_transform@.len()
        &&& rewrites_at(chain, 0, r.pre_transform@)
        &&& chain[pre] is PayeeResolve
        &&& chain[pre]->PayeeResolve_0.strict
        &&& chain[pre]->PayeeResolve_0.built_from(r.payees@, true)
        &&& rewrites_at(chain, pre + 1, r.post_transform@)
    }

    /// Builds the pipeline of a rule set. Aliases are compiled without
    /// regard to case. A rule set with a pattern or an alias that is not a
    /// valid expression is refused.
    pub fn from(r: Rules) -> (made: Result<MrClean, ConfigError>)
        ensures
            match made {
                Ok(chain) => r.valid() && chain.built_from(r),
                Err(e) => !r.valid() && e@ == r.fault(),
            },
    {
        let mut tx: Vec<Rule> = Vec::new();
        match push_rewrites(&mut tx, &r.pre_transform) {
            Ok(_) => {},
            Err(e) => {
                return Err(e);
            },
        }
        let ghost first = tx@;
        match Payees::new(&r.payees, true) {
            Ok(p) => {
                tx.push(Rule::PayeeResolve(p.into_strict()));
            },
            Err(e) => {
                return Err(e);
            },
        }
        let ghost second = tx@;
        match push_rewrites(&mut tx, &r.post_transform) {
            Ok(_) => {},
            Err(e) => {
                return Err(e);
            },
        }
        proof {
            let pre = r.pre_transform@.len() as int;
            assert(tx@.take(pre + 1) == second);
            assert(tx@[pre] == second[pre]);
            assert forall|i: int| 0 <= i < pre implies (#[trigger] tx@[0 + i]) is FieldRewrite
                && r.pre_transform@[i].builds(tx@[0 + i]->FieldRewrite_0) by {
                assert(tx@[i] == second[i]);
                assert(second[i] == first[0 + i]);
            }
        }
        Ok(MrClean { transformers: tx })
    }
}

impl MrClean {
    /// Applies the pipeline as [`Transformer::transform`] does and appends
    /// to `warnings` the lines that warn of ambiguous payees.
    pub fn transform_reporting(&self, record: &mut Record, warnings: &mut Vec<String>) -> (fired:
        Result<bool, TemplateError>)
        requires
            old(record).wf(),
        ensures
            final(record).wf(),
            match self.applied(old(record)@) {
                Ok((after, did)) => fired == Ok::<bool, TemplateError>(did) && final(record)@
                    == after,
                Err(fault) => fired is Err && fired->Err_0@ == fault && final(record)@
                    == self.stopped(old(record)@),
            },
            texts(final(warnings)@) == texts(old(warnings)@) + chain_warnings(
                self.transformers@,
                old(record)@,
                self.transformers@.len(),
            ),
    {
        let ghost start = record@;
        let ghost first = texts(warnings@);
        let mut any: bool = false;
        let mut i: usize = 0;
        assert(first + Seq::<Seq<char>>::empty() =~= first);
        while i < self.transformers.len()
            invariant
                i <= self.transformers@.len(),
                record.wf(),
                start == old(record)@,
                first == texts(old(warnings)@),
                chain_applied(self.transformers@, start, i as nat) == Ok::<
                    (RecordView, bool),
                    crate::template::TemplateFault,
                >((record@, any)),
                texts(warnings@) == first + chain_warnings(self.transformers@, start, i as nat),
            decreases self.transformers@.len() - i,
        {
            proof {
                reveal_with_fuel(chain_applied, 2);
                reveal_with_fuel(chain_warnings, 2);
                assert(((i + 1) as nat - 1) as nat == i as nat);
            }
            let ghost before = chain_warnings(self.transformers@, start, i as nat);
            let ghost current = record@;
            match self.transformers[i].transform_reporting(record, warnings) {
                Ok(did) => {
                    any = did || any;
                    assert(texts(warnings@) =~= first + (before + rule_warnings(
                        self.transformers@[i as int],
                        current,
                    )));
                },
                Err(e) => {
                    proof {
                        assert(chain_applied(self.transformers@, start, (i + 1) as nat) is Err);
                        lemma_chain_fails(
                            self.transformers@,
                            start,
                            (i + 1) as nat,
                            self.transformers@.len(),
                        );
                        lemma_chain_warnings_stop(
                            self.transformers@,
                            start,
                            (i + 1) as nat,
                            self.transformers@.len(),
                        );
                        assert(chain_stopped(self.transformers@, start, (i + 1) as nat)
                            == record@);
                        lemma_chain_stopped_stops(
                            self.transformers@,
                            start,
                            (i + 1) as nat,
                            self.transformers@.len(),
                        );
                        assert(texts(warnings@) =~= first + (before + rule_warnings(
                            self.transformers@[i as int],
                            current,
                        )));
                    }
                    return Err(e);
                },
            }
            i += 1;
        }
        Ok(any)
    }
}

impl Transformer for MrClean {
    open spec fn matches(&self, r: RecordView) -> bool {
        chain_matches(self.transformers@, r)
    }

    open spec fn applied(&self, r: RecordView) -> Applied {
        chain_applied(self.transformers@, r, self.transformers@.len())
    }

    open spec fn stopped(&self, r: RecordView) -> RecordView {
        chain_stopped(self.transformers@, r, self.transformers@.len())
    }

    fn is_match(&self, record: &Record) -> (yes: bool) {
        any_match(&self.transformers, record)
    }

    /// Applies the pipeline. The payee resolver gives no warning through
    /// this method; [`MrClean::transform_reporting`] hands the warning lines
    /// out.
    fn transform(&self, record: &mut Record) -> (fired: Result<bool, TemplateError>) {
        transform_all(&self.transformers, record)
    }
}

} // verus!

//! A small substitution language: `${name}` and `${name|command}` stand for
//! the text that a lookup gives for `name`.

use crate::text::text_eq;
use vstd::prelude::*;
use vstd::string::*;

verus! {

/// The title-cased form that `inflector` gives for `s`.
pub uninterp spec fn title_cased(s: Seq<char>) -> Seq<char>;

/// The lower-case form that `str::to_lowercase` gives for `s`.
pub uninterp spec fn lowercased(s: Seq<char>) -> Seq<char>;

/// The upper-case form that `str::to_uppercase` gives for `s`.
pub uninterp spec fn uppercased(s: Seq<char>) -> Seq<char>;

/// Calls `inflector::cases::titlecase::to_title_case`; the contract gives its
/// result, a function of the text alone, a name.
#[verifier::external_body]
fn title_case(s: &str) -> (out: String)
    ensures
        out@ == title_cased(s@),
{
    inflector::cases::titlecase::to_title_case(s)
}

/// Calls `str::to_lowercase`; the contract gives its result a name.
#[verifier::external_body]
fn lowercase(s: &str) -> (out: String)
    ensures
        out@ == lowercased(s@),
{
    s.to_lowercase()
}

/// Calls `str::to_uppercase`; the contract gives its result a name.
#[verifier::external_body]
fn uppercase(s: &str) -> (out: String)
    ensures
        out@ == uppercased(s@),
{
    s.to_uppercase()
}

/// Why a template could not be expanded.
#[derive(Debug, PartialEq, Eq)]
pub enum TemplateError {
    /// `not_empty` was asked of the named key, whose value is empty.
    EmptyValue(String),
    /// The named command is not one of the known ones.
    InvalidCommand(String),
}

/// The mathematical content of a [`TemplateError`].
pub enum TemplateFault {
    EmptyValue(Seq<char>),
    InvalidCommand(Seq<char>),
}

impl View for TemplateError {
    type V = TemplateFault;

    open spec fn view(&self) -> TemplateFault {
        match self {
            TemplateError::EmptyValue(key) => TemplateFault::EmptyValue(key@),
            TemplateError::InvalidCommand(command) => TemplateFault::InvalidCommand(command@),
        }
    }
}

/// The content of the outcome of an expansion.
pub open spec fn outcome(r: Result<String, TemplateError>) -> Result<Seq<char>, TemplateFault> {
    match r {
        Ok(s) => Ok(s@),
        Err(e) => Err(e@),
    }
}

/// A character of a name: an ASCII letter, an ASCII digit or an
/// underscore. Names are read without regard to case, so the two other
/// letters that equal `s` and `k` once case is ignored, the long s and the
/// Kelvin sign, count as well.
pub open spec fn is_word_char(c: char) -> bool {
    c == '_' || ('0' <= c && c <= '9') || ('a' <= c && c <= 'z') || ('A' <= c && c <= 'Z') || c
        == '\u{17f}' || c == '\u{212a}'
}

/// The end of the longest run of name characters that starts at `i`.
pub open spec fn word_end(s: Seq<char>, i: int) -> int
    decreases s.len() - i,
{
    if 0 <= i < s.len() && is_word_char(s[i]) {
        word_end(s, i + 1)
    } else {
        i
    }
}

/// Where a placeholder lies in a template: its name in
/// `key_start..key_end`, its command, if it has one, and the position after
/// its closing brace.
pub struct Span {
    pub key_start: int,
    pub key_end: int,
    pub command: Option<(int, int)>,
    pub end: int,
}

/// The placeholder that starts exactly at `i`: `${`, a name, optionally `|`
/// and a command name, then `}`.
pub open spec fn placeholder_at(s: Seq<char>, i: int) -> Option<Span> {
    if 0 <= i && i + 1 < s.len() && s[i] == '$' && s[i + 1] == '{' {
        let k = word_end(s, i + 2);
        if i + 2 < k < s.len() {
            if s[k] == '}' {
                Some(Span { key_start: i + 2, key_end: k, command: None, end: k + 1 })
            } else if s[k] == '|' {
                let c = word_end(s, k + 1);
                if k + 1 < c < s.len() && s[c] == '}' {
                    Some(
                        Span { key_start: i + 2, key_end: k, command: Some((k + 1, c)), end: c + 1 },
                    )
                } else {
                    None
                }
            } else {
                None
            }
        } else {
            None
        }
    } else {
        None
    }
}

/// What a placeholder contributes: the looked-up `value`, passed through
/// its command if it has one.
pub open spec fn commanded(key: Seq<char>, value: Seq<char>, command: Option<Seq<char>>) -> Result<
    Seq<char>,
    TemplateFault,
> {
    match command {
        None => Ok(value),
        Some(c) => if c == "title_case"@ {
            Ok(title_cased(value))
        } else if c == "lowercase"@ {
            Ok(lowercased(value))
        } else if c == "uppercase"@ {
            Ok(uppercased(value))
        } else if c == "not_empty"@ {
            if value.len() == 0 {
                Err(TemplateFault::EmptyValue(key))
            } else {
                Ok(value)
            }
        } else {
            Err(TemplateFault::InvalidCommand(c))
        },
    }
}

/// `head` followed by the text of `rest`, or the failure of `rest`.
pub open spec fn prepend(head: Seq<char>, rest: Result<Seq<char>, TemplateFault>) -> Result<
    Seq<char>,
    TemplateFault,
> {
    match rest {
        Ok(tail) => Ok(head + tail),
        Err(e) => Err(e),
    }
}

/// The command text of a placeholder, if it has one.
pub open spec fn command_text(s: Seq<char>, span: Span) -> Option<Seq<char>> {
    match span.command {
        Some((from, to)) => Some(s.subrange(from, to)),
        None => None,
    }
}

/// The expansion of the template `s` from position `i` on: placeholders are
/// taken left to right, each replaced by what `lookup` gives for its name,
/// and every other character stands for itself. The first placeholder that
/// fails decides the failure.
pub open spec fn expanded(s: Seq<char>, i: int, lookup: spec_fn(Seq<char>) -> Seq<char>) -> Result<
    Seq<char>,
    TemplateFault,
>
    decreases s.len() - i,
{
    if i < 0 || i >= s.len() {
        Ok(Seq::empty())
    } else {
        match placeholder_at(s, i) {
            Some(span) => {
                let key = s.subrange(span.key_start, span.key_end);
                match commanded(key, lookup(key), command_text(s, span)) {
                    Ok(text) => if span.end > i {
                        prepend(text, expanded(s, span.end, lookup))
                    } else {
                        Ok(text)
                    },
                    Err(e) => Err(e),
                }
            },
            None => prepend(seq![s[i]], expanded(s, i + 1, lookup)),
        }
    }
}

/// One answer of a lookup: the name asked and the text given.
pub type Answer = (Seq<char>, Seq<char>);

/// `head` in front of an expansion, where there is one.
pub open spec fn glue(head: Seq<char>, rest: Option<Result<Seq<char>, TemplateFault>>) -> Option<
    Result<Seq<char>, TemplateFault>,
> {
    match rest {
        Some(r) => Some(prepend(head, r)),
        None => None,
    }
}

/// The expansion of the template `s` from position `i` on when the lookup
/// is asked, placeholder by placeholder from left to right, exactly the
/// names of `answers` and gives their texts; `None` where the placeholders
/// ask other names, more or fewer. Nothing is asked after the first
/// placeholder that fails.
pub open spec fn replayed(s: Seq<char>, i: int, answers: Seq<Answer>) -> Option<
    Result<Seq<char>, TemplateFault>,
>
    decreases s.len() - i,
{
    if i < 0 || i >= s.len() {
        if answers.len() == 0 {
            Some(Ok(Seq::empty()))
        } else {
            None
        }
    } else {
        match placeholder_at(s, i) {
            Some(span) => {
                let key = s.subrange(span.key_start, span.key_end);
                if answers.len() > 0 && answers[0].0 == key && span.end > i {
                    match commanded(key, answers[0].1, command_text(s, span)) {
                        Ok(text) => glue(text, replayed(s, span.end, answers.drop_first())),
                        Err(e) => if answers.len() == 1 {
                            Some(Err(e))
                        } else {
                            None
                        },
                    }
                } else {
                    None
                }
            },
            None => glue(seq![s[i]], replayed(s, i + 1, answers)),
        }
    }
}

/// Whether the lookup function can give this answer.
pub open spec fn given_by<F: Fn(&str) -> String>(func: F, answer: Answer) -> bool {
    exists|key: &str, value: String|
        key@ == answer.0 && value@ == answer.1 && #[trigger] func.ensures((key,), value)
}

/// Whether the lookup function can give each of these answers.
pub open spec fn all_given_by<F: Fn(&str) -> String>(func: F, answers: Seq<Answer>) -> bool {
    forall|j: int| 0 <= j < answers.len() ==> given_by(func, #[trigger] answers[j])
}

/// Whether the template holds a placeholder anywhere.
pub open spec fn has_placeholder(s: Seq<char>) -> bool {
    exists|i: int| 0 <= i < s.len() && #[trigger] placeholder_at(s, i) is Some
}

/// The lookup function `func` computes `lookup`: whatever it returns for a
/// name is what `lookup` gives for it.
pub open spec fn computes<F: Fn(&str) -> String>(
    func: F,
    lookup: spec_fn(Seq<char>) -> Seq<char>,
) -> bool {
    forall|key: &str, value: String| #[trigger] func.ensures((key,), value) ==> value@ == lookup(key@)
}

/// Prepending in two steps is prepending the joined text.
pub proof fn lemma_prepend_twice(a: Seq<char>, b: Seq<char>, r: Result<Seq<char>, TemplateFault>)
    ensures
        prepend(a, prepend(b, r)) == prepend(a + b, r),
{
    match r {
        Ok(t) => {
            assert(a + (b + t) =~= (a + b) + t);
        },
        Err(_) => {},
    }
}

/// From a position after which no placeholder starts, a template expands
/// to its own remaining text.
pub proof fn lemma_plain_tail(s: Seq<char>, i: int, lookup: spec_fn(Seq<char>) -> Seq<char>)
    requires
        0 <= i <= s.len(),
        forall|j: int| i <= j < s.len() ==> #[trigger] placeholder_at(s, j) is None,
    ensures
        expanded(s, i, lookup) == Ok::<Seq<char>, TemplateFault>(s.subrange(i, s.len() as int)),
    decreases s.len() - i,
{
    if i < s.len() {
        lemma_plain_tail(s, i + 1, lookup);
        assert(placeholder_at(s, i) is None);
        assert(seq![s[i]] + s.subrange(i + 1, s.len() as int) =~= s.subrange(i, s.len() as int));
    } else {
        assert(s.subrange(i, s.len() as int) =~= Seq::<char>::empty());
    }
}

/// From a position after which no placeholder starts, a template asks
/// nothing and expands to its own remaining text.
pub proof fn lemma_plain_tail_asks_nothing(s: Seq<char>, i: int)
    requires
        0 <= i <= s.len(),
        forall|j: int| i <= j < s.len() ==> #[trigger] placeholder_at(s, j) is None,
    ensures
        replayed(s, i, Seq::empty()) == Some(
            Ok::<Seq<char>, TemplateFault>(s.subrange(i, s.len() as int)),
        ),
    decreases s.len() - i,
{
    if i < s.len() {
        lemma_plain_tail_asks_nothing(s, i + 1);
        assert(placeholder_at(s, i) is None);
        assert(seq![s[i]] + s.subrange(i + 1, s.len() as int) =~= s.subrange(i, s.len() as int));
    } else {
        assert(s.subrange(i, s.len() as int) =~= Seq::<char>::empty());
    }
}

/// Gluing in two steps is gluing the joined text.
pub proof fn lemma_glue_twice(
    a: Seq<char>,
    b: Seq<char>,
    r: Option<Result<Seq<char>, TemplateFault>>,
)
    ensures
        glue(a, glue(b, r)) == glue(a + b, r),
{
    match r {
        Some(inner) => {
            lemma_prepend_twice(a, b, inner);
        },
        None => {},
    }
}

/// A template without a placeholder expands to itself, whatever the lookup.
pub proof fn lemma_plain_text_unchanged(s: Seq<char>, lookup: spec_fn(Seq<char>) -> Seq<char>)
    requires
        !has_placeholder(s),
    ensures
        expanded(s, 0, lookup) == Ok::<Seq<char>, TemplateFault>(s),
{
    lemma_plain_tail(s, 0, lookup);
    assert(s.subrange(0, s.len() as int) =~= s);
}

/// A placeholder found in a template, by character positions.
pub struct Placeholder {
    pub key_start: usize,
    pub key_end: usize,
    pub command: Option<(usize, usize)>,
    pub end: usize,
}

impl View for Placeholder {
    type V = Span;

    open spec fn view(&self) -> Span {
        Span {
            key_start: self.key_start as int,
            key_end: self.key_end as int,
            command: match self.command {
                Some((from, to)) => Some((from as int, to as int)),
                None => None,
            },
            end: self.end as int,
        }
    }
}

/// Whether the character of `s` at `k` can stand in a name.
fn word_char_at(s: &str, k: usize) -> (yes: bool)
    requires
        k < s@.len(),
    ensures
        yes == is_word_char(s@[k as int]),
{
    let c = s.get_char(k);
    c == '_' || ('0' <= c && c <= '9') || ('a' <= c && c <= 'z') || ('A' <= c && c <= 'Z') || c
        == '\u{17f}' || c == '\u{212a}'
}

/// The end of the longest run of name characters of `s` that starts at `i`.
fn scan_word(s: &str, n: usize, i: usize) -> (k: usize)
    requires
        n == s@.len(),
        i <= n,
    ensures
        k == word_end(s@, i as int),
        i <= k <= n,
{
    let mut k: usize = i;
    while k < n && word_char_at(s, k)
        invariant
            n == s@.len(),
            i <= k <= n,
            word_end(s@, i as int) == word_end(s@, k as int),
        decreases n - k,
    {
        k += 1;
    }
    k
}

/// The placeholder of `s` that starts exactly at `i`, if there is one.
pub fn scan_placeholder(s: &str, n: usize, i: usize) -> (found: Option<Placeholder>)
    requires
        n == s@.len(),
        i < n,
    ensures
        match found {
            Some(p) => placeholder_at(s@, i as int) == Some(p@) && i < p.key_start < p.key_end
                < p.end <= n && (match p.command {
                Some((from, to)) => p.key_end < from < to < p.end,
                None => true,
            }),
            None => placeholder_at(s@, i as int) is None,
        },
{
    if n - i < 2 {
        return None;
    }
    if s.get_char(i) != '$' || s.get_char(i + 1) != '{' {
        return None;
    }
    let k = scan_word(s, n, i + 2);
    if k == i + 2 || k >= n {
        return None;
    }
    let c = s.get_char(k);
    if c == '}' {
        Some(Placeholder { key_start: i + 2, key_end: k, command: None, end: k + 1 })
    } else if c == '|' {
        let e = scan_word(s, n, k + 1);
        if e == k + 1 || e >= n {
            return None;
        }
        if s.get_char(e) == '}' {
            Some(Placeholder { key_start: i + 2, key_end: k, command: Some((k + 1, e)), end: e + 1 })
        } else {
            None
        }
    } else {
        None
    }
}

/// Whether `s` holds a placeholder anywhere.
pub fn contains_placeholder(s: &str) -> (yes: bool)
    ensures
        yes == has_placeholder(s@),
{
    let n: usize = s.unicode_len();
    let mut i: usize = 0;
    while i < n
        invariant
            n == s@.len(),
            i <= n,
            forall|j: int| 0 <= j < i ==> #[trigger] placeholder_at(s@, j) is None,
        decreases n - i,
    {
        if scan_placeholder(s, n, i).is_some() {
            return true;
        }
        i += 1;
    }
    false
}

/// Passes the looked-up `value` of the placeholder `key` through its
/// command: `title_case`, `lowercase` and `uppercase` convert it,
/// `not_empty` refuses an empty value, and any other command is refused.
pub fn apply_command(key: &str, value: String, command: Option<&str>) -> (out: Result<
    String,
    TemplateError,
>)
    ensures
        outcome(out) == commanded(
            key@,
            value@,
            match command {
                Some(c) => Some(c@),
                None => None,
            },
        ),
{
    match command {
        None => Ok(value),
        Some(c) => {
            if text_eq(c, "title_case") {
                Ok(title_case(value.as_str()))
            } else if text_eq(c, "lowercase") {
                Ok(lowercase(value.as_str()))
            } else if text_eq(c, "uppercase") {
                Ok(uppercase(value.as_str()))
            } else if text_eq(c, "not_empty") {
                if value.as_str().unicode_len() == 0 {
                    Err(TemplateError::EmptyValue(key.to_owned()))
                } else {
                    Ok(value)
                }
            } else {
                Err(TemplateError::InvalidCommand(c.to_owned()))
            }
        },
    }
}

/// Expands the template `tmpl`, asking `func` for the text of each
/// placeholder's name, left to right, once per placeholder. A template
/// without a placeholder comes back unchanged and `func` is never asked.
/// The outcome is the expansion under answers that `func` can give to the
/// names asked; where `func` computes a function of the name, it is the
/// expansion under that function.
pub fn interpolate(tmpl: &str, func: impl Fn(&str) -> String) -> (out: Result<
    String,
    TemplateError,
>)
    requires
        forall|key: &str| #[trigger] func.requires((key,)),
    ensures
        !has_placeholder(tmpl@) ==> outcome(out) == Ok::<Seq<char>, TemplateFault>(tmpl@),
        forall|lookup: spec_fn(Seq<char>) -> Seq<char>| #[trigger]
            computes(func, lookup) ==> outcome(out) == expanded(tmpl@, 0, lookup),
        exists|answers: Seq<Answer>|
            all_given_by(func, answers) && #[trigger] replayed(tmpl@, 0, answers) == Some(
                outcome(out),
            ),
{
    if !contains_placeholder(tmpl) {
        proof {
            lemma_plain_tail_asks_nothing(tmpl@, 0);
            assert(tmpl@.subrange(0, tmpl@.len() as int) =~= tmpl@);
            assert(all_given_by(func, Seq::<Answer>::empty()));
            assert forall|lookup: spec_fn(Seq<char>) -> Seq<char>| #[trigger]
                computes(func, lookup) implies expanded(tmpl@, 0, lookup) == Ok::<
                Seq<char>,
                TemplateFault,
            >(tmpl@) by {
                lemma_plain_text_unchanged(tmpl@, lookup);
            }
        }
        return Ok(tmpl.to_owned());
    }
    let n: usize = tmpl.unicode_len();
    let mut text = String::new();
    let mut i: usize = 0;
    let ghost mut asked: Seq<Answer> = Seq::empty();
    proof {
        assert forall|more: Seq<Answer>| #[trigger]
            replayed(tmpl@, 0, asked + more) == glue(text@, replayed(tmpl@, 0, more)) by {
            assert(asked + more =~= more);
            match replayed(tmpl@, 0, more) {
                Some(Ok(t)) => {
                    assert(Seq::<char>::empty() + t =~= t);
                },
                _ => {},
            }
        }
    }
    proof {
        assert forall|lookup: spec_fn(Seq<char>) -> Seq<char>|
            expanded(tmpl@, 0, lookup) == prepend(
                Seq::<char>::empty(),
                #[trigger] expanded(tmpl@, 0, lookup),
            ) by {
            match expanded(tmpl@, 0, lookup) {
                Ok(t) => {
                    assert(Seq::<char>::empty() + t =~= t);
                },
                Err(_) => {},
            }
        }
    }
    while i < n
        invariant
            n == tmpl@.len(),
            i <= n,
            has_placeholder(tmpl@),
            forall|key: &str| #[trigger] func.requires((key,)),
            forall|lookup: spec_fn(Seq<char>) -> Seq<char>| #[trigger]
                computes(func, lookup) ==> expanded(tmpl@, 0, lookup) == prepend(
                    text@,
                    expanded(tmpl@, i as int, lookup),
                ),
            all_given_by(func, asked),
            forall|more: Seq<Answer>|
                replayed(tmpl@, 0, asked + more) == glue(
                    text@,
                    #[trigger] replayed(tmpl@, i as int, more),
                ),
        decreases n - i,
    {
        let ghost before = text@;
        let ghost asked_before = asked;
        match scan_placeholder(tmpl, n, i) {
            Some(p) => {
                let key = tmpl.substring_char(p.key_start, p.key_end);
                let value = func(key);
                let command = match p.command {
                    Some((from, to)) => Some(tmpl.substring_char(from, to)),
                    None => None,
                };
                let ghost looked_up = value@;
                let ghost answer: Answer = (key@, looked_up);
                proof {
                    assert(given_by(func, answer));
                    asked = asked_before.push(answer);
                    assert forall|j: int| 0 <= j < asked.len() implies given_by(
                        func,
                        #[trigger] asked[j],
                    ) by {
                        if j < asked_before.len() {
                            assert(asked[j] == asked_before[j]);
                        }
                    }
                }
                match apply_command(key, value, command) {
                    Ok(piece) => {
                        text.append(piece.as_str());
                        proof {
                            assert forall|more: Seq<Answer>|
                                replayed(tmpl@, 0, asked + more) == glue(
                                    text@,
                                    #[trigger] replayed(tmpl@, p.end as int, more),
                                ) by {
                                let longer = seq![answer] + more;
                                assert(asked + more =~= asked_before + longer);
                                assert(longer.drop_first() =~= more);
                                assert(replayed(tmpl@, i as int, longer) == glue(
                                    piece@,
                                    replayed(tmpl@, p.end as int, more),
                                ));
                                lemma_glue_twice(
                                    before,
                                    piece@,
                                    replayed(tmpl@, p.end as int, more),
                                );
                            }
                        }
                        proof {
                            assert forall|lookup: spec_fn(Seq<char>) -> Seq<char>| #[trigger]
                                computes(func, lookup) implies expanded(tmpl@, 0, lookup)
                                == prepend(text@, expanded(tmpl@, p.end as int, lookup)) by {
                                assert(looked_up == lookup(key@));
                                lemma_prepend_twice(
                                    before,
                                    piece@,
                                    expanded(tmpl@, p.end as int, lookup),
                                );
                            }
                        }
                        i = p.end;
                    },
                    Err(e) => {
                        proof {
                            let last = seq![answer];
                            assert(asked =~= asked_before + last);
                            assert(replayed(tmpl@, i as int, last) == Some(
                                Err::<Seq<char>, TemplateFault>(e@),
                            ));
                            assert(replayed(tmpl@, 0, asked) == Some(
                                Err::<Seq<char>, TemplateFault>(e@),
                            ));
                        }
                        proof {
                            assert forall|lookup: spec_fn(Seq<char>) -> Seq<char>| #[trigger]
                                computes(func, lookup) implies expanded(tmpl@, 0, lookup) == Err::<
                                Seq<char>,
                                TemplateFault,
                            >(e@) by {
                                assert(looked_up == lookup(key@));
                            }
                        }
                        return Err(e);
                    },
                }
            },
            None => {
                text.append(tmpl.substring_char(i, i + 1));
                proof {
                    assert(tmpl@.subrange(i as int, i + 1) =~= seq![tmpl@[i as int]]);
                    assert forall|more: Seq<Answer>|
                        replayed(tmpl@, 0, asked + more) == glue(
                            text@,
                            #[trigger] replayed(tmpl@, i + 1, more),
                        ) by {
                        assert(replayed(tmpl@, i as int, more) == glue(
                            seq![tmpl@[i as int]],
                            replayed(tmpl@, i + 1, more),
                        ));
                        lemma_glue_twice(
                            before,
                            seq![tmpl@[i as int]],
                            replayed(tmpl@, i + 1, more),
                        );
                    }
                    assert forall|lookup: spec_fn(Seq<char>) -> Seq<char>| #[trigger]
                        computes(func, lookup) implies expanded(tmpl@, 0, lookup) == prepend(
                        text@,
                        expanded(tmpl@, i + 1, lookup),
                    ) by {
                        lemma_prepend_twice(
                            before,
                            seq![tmpl@[i as int]],
                            expanded(tmpl@, i + 1, lookup),
                        );
                    }
                }
                i += 1;
            },
        }
    }
    proof {
        assert forall|lookup: spec_fn(Seq<char>) -> Seq<char>| #[trigger]
            computes(func, lookup) implies expanded(tmpl@, 0, lookup) == Ok::<
            Seq<char>,
            TemplateFault,
        >(text@) by {
            assert(text@ + Seq::<char>::empty() =~= text@);
        }
        assert(asked + Seq::<Answer>::empty() =~= asked);
        assert(text@ + Seq::<char>::empty() =~= text@);
        assert(replayed(tmpl@, i as int, Seq::<Answer>::empty()) == Some(
            Ok::<Seq<char>, TemplateFault>(Seq::empty()),
        ));
        assert(replayed(tmpl@, 0, asked) == Some(Ok::<Seq<char>, TemplateFault>(text@)));
    }
    Ok(text)
}

} // verus!

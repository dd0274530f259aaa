//! The resolution protocol: how a directive's key becomes text.

use crate::errors::{
    fmt_result_view, unknown_key_error, unknown_key_message, Answer, CurlyErrorKind,
    CurlyFmtResult, ErrorView,
};
use crate::formatters::{value_formatted, Value, ValueView};
use crate::formatting::{ContextView, CurlyContext, CurlyFmt};
use vstd::prelude::*;
use vstd::string::StringExecFns;

verus! {

/// A source of values: it renders the value behind a key under the
/// context of the directive that asks for it, or says why it cannot. A
/// generic error names a key that the provider does not know.
pub trait Provider {
    /// Renders the value behind `key`.
    fn provide(&self, context: &CurlyContext, key: &str) -> CurlyFmtResult;
}

/// Whether the provider may give `answer` when it is asked for `key`
/// under `context`: whether what it promises of `provide` admits this
/// answer. A provider that promises nothing may give any.
pub open spec fn may_answer<P: Provider>(
    provider: &P,
    context: ContextView,
    key: Seq<char>,
    answer: Answer,
) -> bool {
    exists|asked: CurlyContext, name: &str, given: CurlyFmtResult|
        asked@ == context && name@ == key && fmt_result_view(given) == answer
            && #[trigger] call_ensures(P::provide, (provider, &asked, name), given)
}

/// Whether the provider answers as `source` says: whether each key has,
/// under each context, the one answer that `source` names. A provider with
/// an exact promise obeys a source; where it does, rendering is exact.
pub open spec fn obeys<P: Provider>(provider: &P, source: spec_fn(ContextView, Seq<char>) -> Answer)
    -> bool {
    forall|context: ContextView, key: Seq<char>, answer: Answer|
        #[trigger] may_answer(provider, context, key, answer) ==> answer == source(context, key)
}

/// The provider that knows no key.
#[derive(Debug, Clone, Copy, PartialEq, Eq, Hash, Default)]
pub struct Unknown {}

impl Provider for Unknown {
    fn provide(&self, context: &CurlyContext, key: &str) -> (r: CurlyFmtResult)
        ensures
            fmt_result_view(r) == Err::<Seq<char>, ErrorView>(
                ErrorView::Generic(unknown_key_message(key@)),
            ),
    {
        Err(unknown_key_error(key))
    }
}

/// What `Unknown` answers.
pub open spec fn unknown_source() -> spec_fn(ContextView, Seq<char>) -> Answer {
    |context: ContextView, key: Seq<char>| Err(ErrorView::Generic(unknown_key_message(key)))
}

/// `Unknown` answers every key with the error for an unknown key.
pub proof fn lemma_unknown_obeys(provider: &Unknown)
    ensures
        obeys(provider, unknown_source()),
{
}

/// A value under the name by which directives ask for it.
#[derive(Debug, Clone, PartialEq, Eq, Hash)]
pub struct Entry {
    pub name: String,
    pub value: Value,
}

/// The mathematical content of an `Entry`.
pub struct EntryView {
    pub name: Seq<char>,
    pub value: ValueView,
}

impl View for Entry {
    type V = EntryView;

    open spec fn view(&self) -> EntryView {
        EntryView { name: self.name@, value: self.value@ }
    }
}

/// A provider made of named values. Names are matched exactly. Of two
/// values under one name, the one that was added later counts.
#[derive(Debug, Clone, PartialEq, Eq, Hash, Default)]
pub struct Values {
    entries: Vec<Entry>,
}

impl View for Values {
    type V = Seq<EntryView>;

    closed spec fn view(&self) -> Seq<EntryView> {
        Seq::new(self.entries@.len(), |i: int| self.entries@[i]@)
    }
}

/// The value under the name `key`: that of the last entry with this name.
pub open spec fn lookup(entries: Seq<EntryView>, key: Seq<char>) -> Option<ValueView>
    decreases entries.len(),
{
    if entries.len() == 0 {
        None
    } else if entries.last().name == key {
        Some(entries.last().value)
    } else {
        lookup(entries.drop_last(), key)
    }
}

/// What named values return for a key: the value under this name,
/// rendered under the context, or the error for an unknown key.
pub open spec fn values_provided(entries: Seq<EntryView>, context: ContextView, key: Seq<char>)
    -> Answer {
    match lookup(entries, key) {
        Some(value) => value_formatted(value, context),
        None => Err(ErrorView::Generic(unknown_key_message(key))),
    }
}

impl Values {
    /// No values.
    pub fn new() -> (values: Self)
        ensures
            values@ == Seq::<EntryView>::empty(),
    {
        let values = Values { entries: Vec::new() };
        assert(values@ =~= Seq::<EntryView>::empty());
        values
    }

    /// Adds a value under a name.
    pub fn insert(&mut self, name: &str, value: Value)
        ensures
            final(self)@ == old(self)@.push(EntryView { name: name@, value: value@ }),
    {
        self.entries.push(Entry { name: String::from_str(name), value });
        assert(self@ =~= old(self)@.push(EntryView { name: name@, value: value@ }));
    }

    /// These values and one more.
    pub fn with(self, name: &str, value: Value) -> (values: Self)
        ensures
            values@ == self@.push(EntryView { name: name@, value: value@ }),
    {
        let mut values = self;
        values.insert(name, value);
        values
    }

    /// The number of entries.
    pub fn len(&self) -> (n: usize)
        ensures
            n == self@.len(),
    {
        self.entries.len()
    }

    /// The value under the name `key`, if there is one.
    pub fn get(&self, key: &str) -> (value: Option<&Value>)
        ensures
            match value {
                Some(v) => lookup(self@, key@) == Some(v@),
                None => lookup(self@, key@) is None,
            },
    {
        let wanted = String::from_str(key);
        let mut i: usize = self.entries.len();
        assert(self@.take(i as int) == self@);
        while i > 0
            invariant
                i <= self.entries.len(),
                wanted@ == key@,
                lookup(self@, key@) == lookup(self@.take(i as int), key@),
            decreases i,
        {
            proof {
                assert(self@.take(i as int).drop_last() == self@.take(i - 1));
                assert(self@.take(i as int).last() == self.entries@[i - 1]@);
            }
            i -= 1;
            if self.entries[i].name == wanted {
                return Some(&self.entries[i].value);
            }
        }
        None
    }
}

impl Provider for Values {
    fn provide(&self, context: &CurlyContext, key: &str) -> (r: CurlyFmtResult)
        ensures
            fmt_result_view(r) == values_provided(self@, context@, key@),
    {
        match self.get(key) {
            Some(value) => value.curly_fmt(context),
            None => Err(unknown_key_error(key)),
        }
    }
}

/// What these named values answer.
pub open spec fn values_source(entries: Seq<EntryView>) -> spec_fn(ContextView, Seq<char>) -> Answer {
    |context: ContextView, key: Seq<char>| values_provided(entries, context, key)
}

/// Named values answer with the value under the key.
pub proof fn lemma_values_obey(values: &Values)
    ensures
        obeys(values, values_source(values@)),
{
}

/// Two providers as one: the primary answers, and what it does not know
/// the secondary answers. The primary does not know a key when it
/// returns a generic error for it.
#[derive(Debug, Clone, PartialEq, Eq, Hash, Default)]
pub struct Delegate<P: Provider, S: Provider> {
    pub primary: P,
    pub secondary: S,
}

/// Whether an answer says that the provider does not know the key.
pub open spec fn is_unknown(answer: Answer) -> bool {
    answer matches Err(ErrorView::Generic(_))
}

/// What a primary and a secondary provider answer together, given what
/// each answers alone.
pub open spec fn delegated(
    primary: Answer,
    secondary: Answer,
) -> Answer {
    if is_unknown(primary) {
        secondary
    } else {
        primary
    }
}

/// Whether an answer says that the provider does not know the key.
pub fn unknown(answer: &CurlyFmtResult) -> (b: bool)
    ensures
        b == is_unknown(fmt_result_view(*answer)),
{
    match answer {
        Err(CurlyErrorKind::Generic(_)) => true,
        _ => false,
    }
}

/// Whether a primary and a secondary provider may give `answer` together:
/// it is what the primary may answer, unless that says that the primary
/// does not know the key; then it is what the secondary may answer.
pub open spec fn may_delegate<P: Provider, S: Provider>(
    primary: &P,
    secondary: &S,
    context: ContextView,
    key: Seq<char>,
    answer: Answer,
) -> bool {
    exists|first: Answer| #[trigger]
        may_answer(primary, context, key, first) && if is_unknown(first) {
            may_answer(secondary, context, key, answer)
        } else {
            answer == first
        }
}

impl<P: Provider, S: Provider> Provider for Delegate<P, S> {
    /// Asks the primary provider, and the secondary provider if the
    /// primary does not know the key.
    fn provide(&self, context: &CurlyContext, key: &str) -> (r: CurlyFmtResult)
        ensures
            may_delegate(&self.primary, &self.secondary, context@, key@, fmt_result_view(r)),
    {
        let first = self.primary.provide(context, key);
        proof {
            assert(call_ensures(P::provide, (&self.primary, context, key), first));
            assert(may_answer(&self.primary, context@, key@, fmt_result_view(first)));
        }
        if unknown(&first) {
            let second = self.secondary.provide(context, key);
            proof {
                assert(call_ensures(S::provide, (&self.secondary, context, key), second));
                assert(may_answer(&self.secondary, context@, key@, fmt_result_view(second)));
            }
            second
        } else {
            first
        }
    }
}

/// What two providers answer together, given what each answers alone.
pub open spec fn delegate_source(
    primary: spec_fn(ContextView, Seq<char>) -> Answer,
    secondary: spec_fn(ContextView, Seq<char>) -> Answer,
) -> spec_fn(ContextView, Seq<char>) -> Answer {
    |context: ContextView, key: Seq<char>| delegated(primary(context, key), secondary(context, key))
}

/// Two providers that answer as their sources say answer together as the
/// two sources say together: the primary first.
pub proof fn lemma_delegate_obeys<P: Provider, S: Provider>(
    delegate: &Delegate<P, S>,
    primary: spec_fn(ContextView, Seq<char>) -> Answer,
    secondary: spec_fn(ContextView, Seq<char>) -> Answer,
)
    requires
        obeys(&delegate.primary, primary),
        obeys(&delegate.secondary, secondary),
    ensures
        obeys(delegate, delegate_source(primary, secondary)),
{
    assert forall|context: ContextView, key: Seq<char>, answer: Answer| #[trigger]
        may_answer(delegate, context, key, answer) implies answer == delegate_source(
        primary,
        secondary,
    )(context, key) by {
        let (asked, name, given) = choose|asked: CurlyContext, name: &str, given: CurlyFmtResult|
            asked@ == context && name@ == key && fmt_result_view(given) == answer
                && #[trigger] call_ensures(
                Delegate::<P, S>::provide,
                (delegate, &asked, name),
                given,
            );
        assert(may_delegate(&delegate.primary, &delegate.secondary, context, key, answer));
        let first = choose|first: Answer| #[trigger]
            may_answer(&delegate.primary, context, key, first) && if is_unknown(first) {
                may_answer(&delegate.secondary, context, key, answer)
            } else {
                answer == first
            };
        assert(first == primary(context, key));
    }
}

} // verus!

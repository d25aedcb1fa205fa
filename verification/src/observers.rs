//! Observers that are told of changes to a document.
use vstd::prelude::*;

use crate::dom::NodesTable;
use crate::dom::NodesModel;
use crate::elements::is_listed;
use crate::text::contains_text;
use crate::text::lemma_among;
use crate::text::texts_of;
use crate::tree::acyclic;
use crate::tree::get_parents;
use crate::tree::lineage;
use crate::urls::optional_view;

verus! {

/// What an observer wants to be told of.
#[derive(Debug, Clone)]
pub struct Options {
    pub child_list: bool,
    pub attributes: Option<bool>,
    pub character_data: Option<bool>,
    /// Changes below the node count too.
    pub subtree: bool,
    pub attribute_old_value: Option<bool>,
    pub character_data_old_value: Option<bool>,
    /// Only these attributes count.
    pub attribute_filter: Option<Vec<String>>,
}

/// What an [`Options`] holds.
pub struct OptionsModel {
    pub child_list: bool,
    pub attributes: Option<bool>,
    pub character_data: Option<bool>,
    pub subtree: bool,
    pub attribute_old_value: Option<bool>,
    pub character_data_old_value: Option<bool>,
    pub attribute_filter: Option<Seq<Seq<char>>>,
}

impl View for Options {
    type V = OptionsModel;

    open spec fn view(&self) -> OptionsModel {
        OptionsModel {
            child_list: self.child_list,
            attributes: self.attributes,
            character_data: self.character_data,
            subtree: self.subtree,
            attribute_old_value: self.attribute_old_value,
            character_data_old_value: self.character_data_old_value,
            attribute_filter: match self.attribute_filter {
                Some(filter) => Some(texts_of(filter@)),
                None => None,
            },
        }
    }
}

/// Why an observer cannot observe.
#[derive(Debug, Clone, Copy, PartialEq, Eq, Structural)]
pub enum ObserveError {
    UnknownObserver,
    /// No kind of change was asked for.
    NoMutations,
    /// Something was asked for about attributes, but not to be told of them.
    AttributesRequired,
    /// Old texts were asked for, but not to be told of texts.
    CharacterDataRequired,
}

/// What options mean where they leave something open: who asks for old values or names attributes
/// wants to be told of them.
pub open spec fn completed(options: OptionsModel) -> OptionsModel {
    OptionsModel {
        attributes: match options.attributes {
            Some(attributes) => Some(attributes),
            None => Some(
                options.attribute_old_value is Some || options.attribute_filter is Some,
            ),
        },
        character_data: match options.character_data {
            Some(character_data) => Some(character_data),
            None => Some(options.character_data_old_value is Some),
        },
        ..options
    }
}

/// What is wrong with options; nothing where they can be met.
pub open spec fn fault(options: OptionsModel) -> Option<ObserveError> {
    let full = completed(options);
    let attributes = full.attributes == Some(true);
    let character_data = full.character_data == Some(true);
    if !full.child_list && !attributes && !character_data {
        Some(ObserveError::NoMutations)
    } else if !attributes && (full.attribute_old_value == Some(true)
        || full.attribute_filter is Some) {
        Some(ObserveError::AttributesRequired)
    } else if !character_data && full.character_data_old_value == Some(true) {
        Some(ObserveError::CharacterDataRequired)
    } else {
        None
    }
}

fn is_true(value: Option<bool>) -> (r: bool)
    ensures
        r == (value == Some(true)),
{
    match value {
        Some(value) => value,
        None => false,
    }
}

impl Options {
    /// Fills in what options leave open, and looks whether they can be met.
    pub fn validate(&mut self) -> (r: Result<(), ObserveError>)
        ensures
            final(self)@ == completed(old(self)@),
            match r {
                Ok(_) => fault(old(self)@) is None,
                Err(error) => fault(old(self)@) == Some(error),
            },
    {
        let attributes = match self.attributes {
            Some(attributes) => attributes,
            None => self.attribute_old_value.is_some() || self.attribute_filter.is_some(),
        };
        self.attributes = Some(attributes);
        let character_data = match self.character_data {
            Some(character_data) => character_data,
            None => self.character_data_old_value.is_some(),
        };
        self.character_data = Some(character_data);
        if !self.child_list && !attributes && !character_data {
            return Err(ObserveError::NoMutations);
        }
        if !attributes && (is_true(self.attribute_old_value) || self.attribute_filter.is_some()) {
            return Err(ObserveError::AttributesRequired);
        }
        if !character_data && is_true(self.character_data_old_value) {
            return Err(ObserveError::CharacterDataRequired);
        }
        Ok(())
    }
}

#[derive(Debug, Clone, Copy, PartialEq, Eq, Structural)]
pub enum RecordKind {
    Attributes,
    CharacterData,
}

impl RecordKind {
    /// The name by which scripts know the kind.
    pub fn name(&self) -> (r: &'static str)
        ensures
            r@ == (match *self {
                RecordKind::Attributes => "attributes"@,
                RecordKind::CharacterData => "characterData"@,
            }),
    {
        match self {
            RecordKind::Attributes => "attributes",
            RecordKind::CharacterData => "characterData",
        }
    }
}

/// A change that an observer is told of.
#[derive(Debug, Clone, PartialEq)]
pub struct Record {
    pub kind: RecordKind,
    pub target: usize,
    pub attribute_name: Option<String>,
    pub old_value: Option<String>,
}

/// What a [`Record`] holds.
pub struct RecordModel {
    pub kind: RecordKind,
    pub target: usize,
    pub attribute_name: Option<Seq<char>>,
    pub old_value: Option<Seq<char>>,
}

impl View for Record {
    type V = RecordModel;

    open spec fn view(&self) -> RecordModel {
        RecordModel {
            kind: self.kind,
            target: self.target,
            attribute_name: optional_view(self.attribute_name),
            old_value: optional_view(self.old_value),
        }
    }
}

pub open spec fn record_models(records: Seq<Record>) -> Seq<RecordModel> {
    Seq::new(records.len(), |i: int| records[i]@)
}

/// What an observer observes: a node, or the document where none is given.
#[derive(Debug)]
pub struct Registration {
    pub target: Option<usize>,
    pub observer: usize,
    pub options: Options,
}

/// What a [`Registration`] holds.
pub struct RegistrationModel {
    pub target: Option<usize>,
    pub observer: usize,
    pub options: OptionsModel,
}

impl View for Registration {
    type V = RegistrationModel;

    open spec fn view(&self) -> RegistrationModel {
        RegistrationModel {
            target: self.target,
            observer: self.observer,
            options: self.options@,
        }
    }
}

/// The observers, by number; what they observe; what they have not been told yet; and those of them
/// that wait to be told.
#[derive(Debug)]
pub struct Observers {
    pub registrations: Vec<Registration>,
    pub records: Vec<Vec<Record>>,
    pub pending: Vec<usize>,
}

/// What an [`Observers`] holds.
#[verifier::ext_equal]
pub struct ObserversModel {
    pub registrations: Seq<RegistrationModel>,
    pub records: Seq<Seq<RecordModel>>,
    pub pending: Seq<usize>,
}

pub open spec fn registration_models(list: Seq<Registration>) -> Seq<RegistrationModel> {
    Seq::new(list.len(), |i: int| list[i]@)
}

impl View for Observers {
    type V = ObserversModel;

    open spec fn view(&self) -> ObserversModel {
        ObserversModel {
            registrations: registration_models(self.registrations@),
            records: Seq::new(self.records@.len(), |i: int| record_models(self.records@[i]@)),
            pending: self.pending@,
        }
    }
}

impl ObserversModel {
    /// Only observers that exist observe anything.
    pub open spec fn wf(self) -> bool {
        forall|i: int|
            0 <= i < self.registrations.len() ==> (#[trigger] self.registrations[i]).observer
                < self.records.len()
    }
}

/// The place at which an observer observes a target; the length where it does not.
pub open spec fn registered_at(
    list: Seq<RegistrationModel>,
    target: Option<usize>,
    observer: usize,
) -> int
    decreases list.len(),
{
    if list.len() == 0 || (list[0].target == target && list[0].observer == observer) {
        0
    } else {
        1 + registered_at(list.drop_first(), target, observer)
    }
}

/// The registrations after an observer has asked to observe a target. What it asked for before about
/// the same target is replaced.
pub open spec fn with_registration(
    list: Seq<RegistrationModel>,
    registration: RegistrationModel,
) -> Seq<RegistrationModel> {
    let at = registered_at(list, registration.target, registration.observer);
    if at < list.len() {
        list.update(at, registration)
    } else {
        list.push(registration)
    }
}

/// The registrations without those of an observer.
pub open spec fn without_observer(list: Seq<RegistrationModel>, observer: usize) -> Seq<
    RegistrationModel,
>
    decreases list.len(),
{
    if list.len() == 0 {
        Seq::empty()
    } else if list.last().observer == observer {
        without_observer(list.drop_last(), observer)
    } else {
        without_observer(list.drop_last(), observer).push(list.last())
    }
}

/// Whether an observer wants to be told of a change, and then whether with the old value. A change
/// of the observed node itself is at depth zero.
pub open spec fn interest(options: OptionsModel, depth: int, record: RecordModel) -> Option<bool> {
    if depth != 0 && !options.subtree {
        None
    } else {
        match record.kind {
            RecordKind::Attributes => {
                let listed = match options.attribute_filter {
                    Some(filter) => match record.attribute_name {
                        Some(name) => filter.contains(name),
                        None => false,
                    },
                    None => true,
                };
                if options.attributes == Some(true) && listed {
                    Some(options.attribute_old_value == Some(true))
                } else {
                    None
                }
            },
            RecordKind::CharacterData => if options.character_data == Some(true) {
                Some(options.character_data_old_value == Some(true))
            } else {
                None
            },
        }
    }
}

/// The place of an observer among those that are told; the length where it is not.
pub open spec fn told_at(told: Seq<(usize, bool)>, observer: usize) -> int
    decreases told.len(),
{
    if told.len() == 0 || told[0].0 == observer {
        0
    } else {
        1 + told_at(told.drop_first(), observer)
    }
}

/// Those that are told after another wish of an observer: it is told once, with the old value where
/// one of its wishes says so.
pub open spec fn with_wish(told: Seq<(usize, bool)>, observer: usize, with_old: bool) -> Seq<
    (usize, bool),
> {
    let at = told_at(told, observer);
    if at < told.len() {
        told.update(at, (observer, told[at].1 || with_old))
    } else {
        told.push((observer, with_old))
    }
}

/// Those that are told, after the first registrations for a node at a depth were looked at.
pub open spec fn told_at_node(
    list: Seq<RegistrationModel>,
    count: nat,
    node: Option<usize>,
    depth: int,
    record: RecordModel,
    told: Seq<(usize, bool)>,
) -> Seq<(usize, bool)>
    decreases count,
{
    if count == 0 || count > list.len() {
        told
    } else {
        let before = told_at_node(list, (count - 1) as nat, node, depth, record, told);
        let registration = list[count - 1];
        if registration.target == node {
            match interest(registration.options, depth, record) {
                Some(with_old) => with_wish(before, registration.observer, with_old),
                None => before,
            }
        } else {
            before
        }
    }
}

/// Those that are told of a change, in order: those that observe the node, then those that observe
/// the nodes around it.
pub open spec fn told_of(
    list: Seq<RegistrationModel>,
    ancestors: Seq<Option<usize>>,
    record: RecordModel,
) -> Seq<(usize, bool)>
    decreases ancestors.len(),
{
    if ancestors.len() == 0 {
        Seq::empty()
    } else {
        told_at_node(
            list,
            list.len(),
            ancestors.last(),
            ancestors.len() - 1,
            record,
            told_of(list, ancestors.drop_last(), record),
        )
    }
}

pub open spec fn record_for(record: RecordModel, with_old: bool) -> RecordModel {
    if with_old {
        record
    } else {
        RecordModel { old_value: None, ..record }
    }
}

/// The observers after the first of those that are told have been.
pub open spec fn after_telling(
    observers: ObserversModel,
    told: Seq<(usize, bool)>,
    record: RecordModel,
) -> ObserversModel
    decreases told.len(),
{
    if told.len() == 0 {
        observers
    } else {
        let before = after_telling(observers, told.drop_last(), record);
        let (id, with_old) = told.last();
        if id < before.records.len() {
            ObserversModel {
                registrations: before.registrations,
                records: before.records.update(
                    id as int,
                    before.records[id as int].push(record_for(record, with_old)),
                ),
                pending: if before.pending.contains(id) {
                    before.pending
                } else {
                    before.pending.push(id)
                },
            }
        } else {
            before
        }
    }
}

/// The observers after a change.
pub open spec fn after_change(
    observers: ObserversModel,
    ancestors: Seq<Option<usize>>,
    record: RecordModel,
) -> ObserversModel {
    after_telling(observers, told_of(observers.registrations, ancestors, record), record)
}

proof fn lemma_registered_at(list: Seq<RegistrationModel>, target: Option<usize>, observer: usize)
    ensures
        0 <= registered_at(list, target, observer) <= list.len(),
    decreases list.len(),
{
    if list.len() > 0 {
        lemma_registered_at(list.drop_first(), target, observer);
    }
}

proof fn lemma_without_observer(list: Seq<RegistrationModel>, observer: usize)
    ensures
        forall|i: int|
            0 <= i < without_observer(list, observer).len() ==> {
                &&& (#[trigger] without_observer(list, observer)[i]).observer != observer
                &&& list.contains(without_observer(list, observer)[i])
            },
    decreases list.len(),
{
    if list.len() > 0 {
        let rest = list.drop_last();
        lemma_without_observer(rest, observer);
        let kept = without_observer(list, observer);
        let before = without_observer(rest, observer);
        assert forall|i: int| 0 <= i < kept.len() implies {
            &&& (#[trigger] kept[i]).observer != observer
            &&& list.contains(kept[i])
        } by {
            if i < before.len() {
                assert(kept[i] == before[i]);
                assert(rest.contains(before[i]));
                let k = choose|k: int| 0 <= k < rest.len() && rest[k] == before[i];
                assert(list[k] == kept[i]);
            } else {
                assert(list[list.len() - 1] == kept[i]);
            }
        }
    }
}

fn same_target(a: Option<usize>, b: Option<usize>) -> (r: bool)
    ensures
        r == (a == b),
{
    match (a, b) {
        (Some(a), Some(b)) => a == b,
        (None, None) => true,
        _ => false,
    }
}

fn has_interest(options: &Options, depth: usize, record: &Record) -> (r: Option<bool>)
    ensures
        r == interest(options@, depth as int, record@),
{
    if depth != 0 && !options.subtree {
        return None;
    }
    match record.kind {
        RecordKind::Attributes => {
            let listed = match &options.attribute_filter {
                Some(filter) => match &record.attribute_name {
                    Some(name) => {
                        proof {
                            lemma_among(filter@, name@);
                        }
                        contains_text(filter, name.as_str())
                    },
                    None => false,
                },
                None => true,
            };
            if is_true(options.attributes) && listed {
                Some(is_true(options.attribute_old_value))
            } else {
                None
            }
        },
        RecordKind::CharacterData => {
            if is_true(options.character_data) {
                Some(is_true(options.character_data_old_value))
            } else {
                None
            }
        },
    }
}

fn add_wish(told: &mut Vec<(usize, bool)>, observer: usize, with_old: bool)
    ensures
        final(told)@ == with_wish(old(told)@, observer, with_old),
{
    let ghost start = told@;
    let mut at: usize = 0;
    assert(start.skip(0) =~= start);
    while at < told.len()
        invariant
            at <= told@.len(),
            told@ == start,
            start == old(told)@,
            told_at(start, observer) == at + told_at(start.skip(at as int), observer),
        decreases told@.len() - at,
    {
        if told[at].0 == observer {
            let include_old: bool = told[at].1 || with_old;
            told.set(at, (observer, include_old));
            assert(told@ =~= with_wish(start, observer, with_old));
            return ;
        }
        assert(start.skip(at as int).drop_first() =~= start.skip(at + 1));
        at = at + 1;
    }
    told.push((observer, with_old));
}

impl Observers {
    pub fn new() -> (r: Observers)
        ensures
            r@ == (ObserversModel {
                registrations: Seq::empty(),
                records: Seq::empty(),
                pending: Seq::empty(),
            }),
            r@.wf(),
    {
        let r = Observers { registrations: Vec::new(), records: Vec::new(), pending: Vec::new() };
        assert(r@ =~= (ObserversModel {
            registrations: Seq::empty(),
            records: Seq::empty(),
            pending: Seq::empty(),
        }));
        r
    }

    /// Whether nothing is observed.
    pub fn is_empty(&self) -> (r: bool)
        ensures
            r == (self@.registrations.len() == 0),
    {
        self.registrations.len() == 0
    }

    /// A new observer, which observes nothing.
    pub fn create(&mut self) -> (r: usize)
        requires
            old(self)@.wf(),
        ensures
            final(self)@.wf(),
            r == old(self)@.records.len(),
            final(self)@ == (ObserversModel {
                records: old(self)@.records.push(Seq::empty()),
                ..old(self)@
            }),
    {
        let ghost start = self@;
        let id: usize = self.records.len();
        let none: Vec<Record> = Vec::new();
        assert(record_models(none@) =~= Seq::empty());
        self.records.push(none);
        assert(self@ =~= (ObserversModel { records: start.records.push(Seq::empty()), ..start }));
        id
    }

    fn position(&self, target: Option<usize>, observer: usize) -> (r: usize)
        ensures
            r == registered_at(self@.registrations, target, observer),
            r <= self.registrations@.len(),
    {
        let ghost list = self@.registrations;
        let mut at: usize = 0;
        assert(list.skip(0) =~= list);
        while at < self.registrations.len()
            invariant
                at <= self.registrations@.len(),
                list == self@.registrations,
                registered_at(list, target, observer) == at + registered_at(
                    list.skip(at as int),
                    target,
                    observer,
                ),
            decreases self.registrations@.len() - at,
        {
            assert(list.skip(at as int)[0] == self.registrations@[at as int]@);
            if same_target(self.registrations[at].target, target)
                && self.registrations[at].observer == observer {
                return at;
            }
            assert(list.skip(at as int).drop_first() =~= list.skip(at + 1));
            at = at + 1;
        }
        at
    }

    /// An observer asks to observe a target.
    pub fn observe(&mut self, id: usize, target: Option<usize>, options: Options) -> (r: Result<
        (),
        ObserveError,
    >)
        requires
            old(self)@.wf(),
        ensures
            final(self)@.wf(),
            match r {
                Ok(_) => id < old(self)@.records.len() && fault(options@) is None && final(self)@
                    == (ObserversModel {
                    registrations: with_registration(
                        old(self)@.registrations,
                        RegistrationModel { target, observer: id, options: completed(options@) },
                    ),
                    ..old(self)@
                }),
                Err(error) => *final(self) == *old(self) && if id < old(self)@.records.len() {
                    fault(options@) == Some(error)
                } else {
                    error == ObserveError::UnknownObserver
                },
            },
    {
        let ghost start = self@;
        if id >= self.records.len() {
            return Err(ObserveError::UnknownObserver);
        }
        let mut options = options;
        match options.validate() {
            Ok(_) => {},
            Err(error) => {
                return Err(error);
            },
        }
        let at: usize = self.position(target, id);
        let registration = Registration { target, observer: id, options };
        proof {
            lemma_registered_at(start.registrations, target, id);
        }
        if at < self.registrations.len() {
            self.registrations.set(at, registration);
        } else {
            self.registrations.push(registration);
        }
        proof {
            assert(self@.registrations =~= with_registration(start.registrations, registration@));
            assert forall|i: int| 0 <= i < self@.registrations.len() implies (
            #[trigger] self@.registrations[i]).observer < self@.records.len() by {
                if i < start.registrations.len() && i != at {
                    assert(self@.registrations[i] == start.registrations[i]);
                }
            }
        }
        Ok(())
    }

    /// What an observer has not been told yet. It counts as told afterwards.
    pub fn take_records(&mut self, id: usize) -> (r: Vec<Record>)
        requires
            old(self)@.wf(),
        ensures
            final(self)@.wf(),
            record_models(r@) == (if id < old(self)@.records.len() {
                old(self)@.records[id as int]
            } else {
                Seq::empty()
            }),
            final(self)@ == (ObserversModel {
                records: if id < old(self)@.records.len() {
                    old(self)@.records.update(id as int, Seq::empty())
                } else {
                    old(self)@.records
                },
                ..old(self)@
            }),
    {
        let ghost start = self@;
        let mut taken: Vec<Record> = Vec::new();
        assert(record_models(taken@) =~= Seq::empty());
        if id < self.records.len() {
            std::mem::swap(&mut taken, &mut self.records[id]);
            assert(record_models(taken@) =~= start.records[id as int]);
        }
        assert(self@ =~= (ObserversModel {
            records: if id < start.records.len() {
                start.records.update(id as int, Seq::empty())
            } else {
                start.records
            },
            ..start
        }));
        taken
    }

    /// Whether what has been recorded must now be put down for delivery. `queued` says whether that
    /// was done already.
    pub fn schedule(&self, queued: &mut bool) -> (r: bool)
        ensures
            r == (self@.pending.len() > 0 && !*old(queued)),
            *final(queued) == (*old(queued) || r),
    {
        if self.pending.len() == 0 || *queued {
            return false;
        }
        *queued = true;
        true
    }

    /// The observers that are to be told something, in the order in which they first had something
    /// to hear. From now on others may be put down. Each of them takes its records when it is its
    /// turn, since an observer that is told may bring about what a later one hears as well.
    pub fn deliver(&mut self, queued: &mut bool) -> (r: Vec<usize>)
        requires
            old(self)@.wf(),
        ensures
            final(self)@.wf(),
            r@ == old(self)@.pending,
            final(self)@ == (ObserversModel { pending: Seq::empty(), ..old(self)@ }),
            !*final(queued),
    {
        let ghost start = self@;
        *queued = false;
        let mut taken: Vec<usize> = Vec::new();
        std::mem::swap(&mut taken, &mut self.pending);
        assert(self@ =~= (ObserversModel { pending: Seq::empty(), ..start }));
        taken
    }

    /// An observer observes nothing any more, and what it has not been told is dropped.
    pub fn disconnect(&mut self, id: usize)
        requires
            old(self)@.wf(),
        ensures
            final(self)@.wf(),
            final(self)@ == (ObserversModel {
                registrations: without_observer(old(self)@.registrations, id),
                records: if id < old(self)@.records.len() {
                    old(self)@.records.update(id as int, Seq::empty())
                } else {
                    old(self)@.records
                },
                pending: old(self)@.pending,
            }),
    {
        let ghost start = self@;
        let _dropped = self.take_records(id);
        let mut rest: Vec<Registration> = Vec::new();
        std::mem::swap(&mut rest, &mut self.registrations);
        let ghost given = registration_models(rest@);
        assert(given =~= start.registrations);
        let mut reversed: Vec<Registration> = Vec::new();
        proof {
            assert(given.take(given.len() as int) =~= given);
            assert(registration_models(reversed@) =~= Seq::empty());
            assert(Seq::<RegistrationModel>::empty().reverse() =~= Seq::empty());
            assert(without_observer(given, id) + Seq::<RegistrationModel>::empty()
                =~= without_observer(given, id));
        }
        while rest.len() > 0
            invariant
                given == start.registrations,
                rest@.len() <= given.len(),
                registration_models(rest@) == given.take(rest@.len() as int),
                without_observer(given.take(rest@.len() as int), id) + registration_models(
                    reversed@,
                ).reverse() == without_observer(given, id),
                self.registrations@.len() == 0,
                self.pending@ == start.pending,
                self@.records == (if id < start.records.len() {
                    start.records.update(id as int, Seq::empty())
                } else {
                    start.records
                }),
            decreases rest@.len(),
        {
            let ghost len = rest@.len() as int;
            let ghost first = given.take(len);
            let ghost before = registration_models(reversed@);
            assert(first.drop_last() =~= given.take(len - 1));
            match rest.pop() {
                Some(registration) => {
                    proof {
                        assert(registration_models(rest@) =~= given.take(len - 1));
                        assert(first.last() == registration@);
                    }
                    if registration.observer != id {
                        reversed.push(registration);
                        proof {
                            assert(registration_models(reversed@) =~= before.push(registration@));
                            assert(before.push(registration@).reverse() =~= seq![registration@]
                                + before.reverse());
                            assert(without_observer(first, id) + before.reverse()
                                =~= without_observer(given.take(len - 1), id) + registration_models(
                                reversed@,
                            ).reverse());
                        }
                    }
                },
                None => {},
            }
        }
        let ghost all = registration_models(reversed@);
        proof {
            assert(given.take(0) =~= Seq::empty());
            assert(Seq::<RegistrationModel>::empty() + all.reverse() =~= all.reverse());
        }
        while reversed.len() > 0
            invariant
                all.reverse() == without_observer(start.registrations, id),
                self.registrations@.len() + reversed@.len() == all.len(),
                registration_models(reversed@) == all.take(reversed@.len() as int),
                registration_models(self.registrations@) == all.reverse().take(
                    self.registrations@.len() as int,
                ),
                self.pending@ == start.pending,
                self@.records == (if id < start.records.len() {
                    start.records.update(id as int, Seq::empty())
                } else {
                    start.records
                }),
            decreases reversed@.len(),
        {
            let ghost len = reversed@.len() as int;
            let ghost done = registration_models(self.registrations@);
            match reversed.pop() {
                Some(registration) => {
                    proof {
                        assert(registration_models(reversed@) =~= all.take(len - 1));
                        assert(all.take(len)[len - 1] == registration@);
                    }
                    self.registrations.push(registration);
                    proof {
                        assert(registration_models(self.registrations@) =~= done.push(
                            registration@,
                        ));
                        assert(all.reverse()[all.len() - len] == all[len - 1]);
                        assert(done.push(registration@) =~= all.reverse().take(
                            all.len() - len + 1,
                        ));
                    }
                },
                None => {},
            }
        }
        proof {
            assert(all.reverse().take(all.len() as int) =~= all.reverse());
            lemma_without_observer(start.registrations, id);
            assert forall|i: int| 0 <= i < self@.registrations.len() implies (
            #[trigger] self@.registrations[i]).observer < self@.records.len() by {
                let one = without_observer(start.registrations, id)[i];
                assert(start.registrations.contains(one));
                let k = choose|k: int|
                    0 <= k < start.registrations.len() && start.registrations[k] == one;
                assert(start.registrations[k].observer < start.records.len());
            }
        }
    }

    fn find_told(&self, ancestors: &Vec<Option<usize>>, record: &Record) -> (r: Vec<(usize, bool)>)
        ensures
            r@ == told_of(self@.registrations, ancestors@, record@),
    {
        let ghost list = self@.registrations;
        let mut told: Vec<(usize, bool)> = Vec::new();
        let mut depth: usize = 0;
        while depth < ancestors.len()
            invariant
                depth <= ancestors@.len(),
                list == self@.registrations,
                told@ == told_of(list, ancestors@.take(depth as int), record@),
            decreases ancestors@.len() - depth,
        {
            let ghost first = ancestors@.take(depth + 1);
            let ghost start = told@;
            assert(first.drop_last() =~= ancestors@.take(depth as int));
            let node = ancestors[depth];
            let mut at: usize = 0;
            while at < self.registrations.len()
                invariant
                    at <= self.registrations@.len(),
                    list == self@.registrations,
                    told@ == told_at_node(list, at as nat, node, depth as int, record@, start),
                decreases self.registrations@.len() - at,
            {
                let registration = &self.registrations[at];
                assert(list[at as int] == registration@);
                if same_target(registration.target, node) {
                    match has_interest(&registration.options, depth, record) {
                        Some(with_old) => add_wish(&mut told, registration.observer, with_old),
                        None => {},
                    }
                }
                at = at + 1;
            }
            depth = depth + 1;
        }
        assert(ancestors@.take(ancestors@.len() as int) =~= ancestors@);
        told
    }

    /// Tells observers of a change. `ancestors` is the node that changed and the nodes around it.
    pub fn queue(&mut self, ancestors: &Vec<Option<usize>>, record: &Record)
        requires
            old(self)@.wf(),
        ensures
            final(self)@.wf(),
            final(self)@ == after_change(old(self)@, ancestors@, record@),
    {
        let ghost start = self@;
        let told = self.find_told(ancestors, record);
        let mut at: usize = 0;
        while at < told.len()
            invariant
                at <= told@.len(),
                self@ == after_telling(start, told@.take(at as int), record@),
            decreases told@.len() - at,
        {
            let ghost before = self@;
            assert(told@.take(at + 1).drop_last() =~= told@.take(at as int));
            let (id, with_old): (usize, bool) = told[at];
            let copy = copy_record(record, with_old);
            if id < self.records.len() {
                let ghost lists = self.records@;
                let mut list = self.records.remove(id);
                let ghost one = record_models(list@);
                list.push(copy);
                assert(record_models(list@) =~= one.push(copy@));
                self.records.insert(id, list);
                assert(self.records@ =~= lists.update(id as int, list));
                if !is_listed(&self.pending, id) {
                    self.pending.push(id);
                }
                assert(self@ =~= after_telling(start, told@.take(at + 1), record@));
            }
            at = at + 1;
        }
        proof {
            assert(told@.take(told@.len() as int) =~= told@);
            lemma_telling_keeps(start, told@, record@);
        }
    }

    /// Tells observers that an attribute, or the text, of a node has changed.
    pub fn record_mutation(
        &mut self,
        nodes: &NodesTable,
        root: usize,
        target: usize,
        attribute_name: Option<String>,
        old_value: Option<String>,
    )
        requires
            old(self)@.wf(),
            acyclic(nodes@),
        ensures
            final(self)@.wf(),
            final(self)@ == (if old(self)@.registrations.len() == 0 {
                old(self)@
            } else {
                after_change(
                    old(self)@,
                    watched_nodes(nodes@, root, target),
                    mutation_record(
                        target,
                        optional_view(attribute_name),
                        optional_view(old_value),
                    ),
                )
            }),
    {
        if self.registrations.len() == 0 {
            return ;
        }
        let parents = get_parents(nodes, target);
        let ghost line = lineage(nodes@, target);
        let mut ancestors: Vec<Option<usize>> = Vec::new();
        let mut at: usize = 0;
        while at < parents.len()
            invariant
                at <= parents@.len(),
                parents@ == line,
                ancestors@ =~= line.take(at as int).map_values(|idx: usize| Some(idx)),
            decreases parents@.len() - at,
        {
            ancestors.push(Some(parents[at]));
            at = at + 1;
        }
        assert(line.take(line.len() as int) =~= line);
        if parents.len() > 0 && parents[parents.len() - 1] == root {
            ancestors.push(None);
        }
        assert(ancestors@ =~= watched_nodes(nodes@, root, target));
        let kind = match attribute_name {
            Some(_) => RecordKind::Attributes,
            None => RecordKind::CharacterData,
        };
        let record = Record { kind, target, attribute_name, old_value };
        self.queue(&ancestors, &record);
    }
}

/// A node and those around it, with the document at the end where they lead to its root.
pub open spec fn watched_nodes(nodes: NodesModel, root: usize, target: usize) -> Seq<Option<usize>> {
    let line = lineage(nodes, target);
    let list = line.map_values(|idx: usize| Some(idx));
    if line.len() > 0 && line.last() == root {
        list.push(None)
    } else {
        list
    }
}

/// What is told of a change: of an attribute where one is named, else of the text.
pub open spec fn mutation_record(
    target: usize,
    attribute_name: Option<Seq<char>>,
    old_value: Option<Seq<char>>,
) -> RecordModel {
    RecordModel {
        kind: if attribute_name is Some {
            RecordKind::Attributes
        } else {
            RecordKind::CharacterData
        },
        target,
        attribute_name,
        old_value,
    }
}

fn copy_record(record: &Record, with_old: bool) -> (r: Record)
    ensures
        r@ == record_for(record@, with_old),
{
    let attribute_name = match &record.attribute_name {
        Some(name) => Some(name.clone()),
        None => None,
    };
    let old_value = match &record.old_value {
        Some(value) => {
            if with_old {
                Some(value.clone())
            } else {
                None
            }
        },
        None => None,
    };
    Record { kind: record.kind, target: record.target, attribute_name, old_value }
}

proof fn lemma_telling_keeps(observers: ObserversModel, told: Seq<(usize, bool)>, record: RecordModel)
    ensures
        after_telling(observers, told, record).registrations == observers.registrations,
        after_telling(observers, told, record).records.len() == observers.records.len(),
    decreases told.len(),
{
    if told.len() > 0 {
        lemma_telling_keeps(observers, told.drop_last(), record);
    }
}

/// No observer occurs twice.
pub open spec fn told_once(told: Seq<(usize, bool)>) -> bool {
    forall|i: int, j: int|
        0 <= i < j < told.len() ==> (#[trigger] told[i]).0 != (#[trigger] told[j]).0
}

proof fn lemma_told_at(told: Seq<(usize, bool)>, observer: usize)
    ensures
        0 <= told_at(told, observer) <= told.len(),
        told_at(told, observer) < told.len() ==> told[told_at(told, observer)].0 == observer,
        forall|i: int| 0 <= i < told_at(told, observer) ==> (#[trigger] told[i]).0 != observer,
    decreases told.len(),
{
    if told.len() > 0 && told[0].0 != observer {
        let rest = told.drop_first();
        lemma_told_at(rest, observer);
        assert forall|i: int| 0 <= i < told_at(told, observer) implies (#[trigger] told[i]).0
            != observer by {
            if i > 0 {
                assert(rest[i - 1] == told[i]);
            }
        }
    }
}

proof fn lemma_with_wish(told: Seq<(usize, bool)>, observer: usize, with_old: bool, other: usize)
    requires
        told_once(told),
    ensures
        told_once(with_wish(told, observer, with_old)),
        other != observer && (forall|i: int| 0 <= i < told.len() ==> (#[trigger] told[i]).0 != other)
            ==> (forall|i: int|
            0 <= i < with_wish(told, observer, with_old).len() ==> (#[trigger] with_wish(
                told,
                observer,
                with_old,
            )[i]).0 != other),
{
    lemma_told_at(told, observer);
    let after = with_wish(told, observer, with_old);
    let at = told_at(told, observer);
    assert forall|i: int, j: int| 0 <= i < j < after.len() implies (#[trigger] after[i]).0 != (
    #[trigger] after[j]).0 by {
        if at < told.len() {
            assert(told[i].0 == after[i].0 && told[j].0 == after[j].0);
        } else {
            assert(after[i] == told[i]);
            if j < told.len() {
                assert(after[j] == told[j]);
            }
        }
    }
    if other != observer && (forall|i: int| 0 <= i < told.len() ==> (#[trigger] told[i]).0 != other) {
        assert forall|i: int| 0 <= i < after.len() implies (#[trigger] after[i]).0 != other by {
            if i < told.len() {
                assert(told[i].0 != other);
            }
        }
    }
}

proof fn lemma_told_at_node(
    list: Seq<RegistrationModel>,
    count: nat,
    node: Option<usize>,
    depth: int,
    record: RecordModel,
    told: Seq<(usize, bool)>,
    other: usize,
)
    requires
        told_once(told),
    ensures
        told_once(told_at_node(list, count, node, depth, record, told)),
        (forall|i: int| 0 <= i < list.len() ==> (#[trigger] list[i]).observer != other) && (forall|
            i: int,
        |
            0 <= i < told.len() ==> (#[trigger] told[i]).0 != other) ==> (forall|i: int|
            0 <= i < told_at_node(list, count, node, depth, record, told).len() ==> (
            #[trigger] told_at_node(list, count, node, depth, record, told)[i]).0 != other),
    decreases count,
{
    if count > 0 && count <= list.len() {
        lemma_told_at_node(list, (count - 1) as nat, node, depth, record, told, other);
        let before = told_at_node(list, (count - 1) as nat, node, depth, record, told);
        let registration = list[count - 1];
        if registration.target == node {
            if let Some(with_old) = interest(registration.options, depth, record) {
                lemma_with_wish(before, registration.observer, with_old, other);
            }
        }
    }
}

proof fn lemma_told_of(
    list: Seq<RegistrationModel>,
    ancestors: Seq<Option<usize>>,
    record: RecordModel,
    other: usize,
)
    ensures
        told_once(told_of(list, ancestors, record)),
        (forall|i: int| 0 <= i < list.len() ==> (#[trigger] list[i]).observer != other) ==> (forall|
            i: int,
        |
            0 <= i < told_of(list, ancestors, record).len() ==> (#[trigger] told_of(
                list,
                ancestors,
                record,
            )[i]).0 != other),
    decreases ancestors.len(),
{
    if ancestors.len() > 0 {
        lemma_told_of(list, ancestors.drop_last(), record, other);
        lemma_told_at_node(
            list,
            list.len(),
            ancestors.last(),
            ancestors.len() - 1,
            record,
            told_of(list, ancestors.drop_last(), record),
            other,
        );
    }
}

proof fn lemma_telling_one(
    observers: ObserversModel,
    told: Seq<(usize, bool)>,
    record: RecordModel,
    id: usize,
)
    requires
        told_once(told),
        id < observers.records.len(),
    ensures
        ({
            let after = after_telling(observers, told, record);
            let named = exists|i: int| 0 <= i < told.len() && (#[trigger] told[i]).0 == id;
            &&& after.records.len() == observers.records.len()
            &&& after.records[id as int].len() == observers.records[id as int].len() + (if named {
                1int
            } else {
                0int
            })
            &&& !named ==> after.records[id as int] == observers.records[id as int]
        }),
    decreases told.len(),
{
    if told.len() > 0 {
        let rest = told.drop_last();
        assert(told_once(rest)) by {
            assert forall|i: int, j: int| 0 <= i < j < rest.len() implies (#[trigger] rest[i]).0 != (
            #[trigger] rest[j]).0 by {
                assert(rest[i] == told[i] && rest[j] == told[j]);
            }
        }
        lemma_telling_one(observers, rest, record, id);
        let before_named = exists|i: int| 0 <= i < rest.len() && (#[trigger] rest[i]).0 == id;
        let named = exists|i: int| 0 <= i < told.len() && (#[trigger] told[i]).0 == id;
        if before_named {
            let k = choose|k: int| 0 <= k < rest.len() && (#[trigger] rest[k]).0 == id;
            assert(told[k].0 == id);
            assert(told[told.len() - 1].0 != id);
        }
        if told.last().0 == id {
            assert(told[told.len() - 1].0 == id);
        }
        if named && told.last().0 != id {
            let k = choose|k: int| 0 <= k < told.len() && (#[trigger] told[k]).0 == id;
            assert(rest[k].0 == id);
        }
    }
}

/// An observer is told of a change at most once, however many of the nodes around it it observes.
pub proof fn lemma_told_at_most_once(
    observers: ObserversModel,
    ancestors: Seq<Option<usize>>,
    record: RecordModel,
    id: usize,
)
    requires
        id < observers.records.len(),
    ensures
        ({
            let after = after_change(observers, ancestors, record);
            &&& after.records[id as int].len() <= observers.records[id as int].len() + 1
            &&& after.records[id as int].len() >= observers.records[id as int].len()
        }),
{
    lemma_told_of(observers.registrations, ancestors, record, id);
    lemma_telling_one(
        observers,
        told_of(observers.registrations, ancestors, record),
        record,
        id,
    );
}

/// An observer that was disconnected is told of nothing.
pub proof fn lemma_disconnected_hears_nothing(
    observers: ObserversModel,
    ancestors: Seq<Option<usize>>,
    record: RecordModel,
    id: usize,
)
    requires
        id < observers.records.len(),
    ensures
        ({
            let quiet = ObserversModel {
                registrations: without_observer(observers.registrations, id),
                ..observers
            };
            after_change(quiet, ancestors, record).records[id as int]
                == observers.records[id as int]
        }),
{
    let quiet = ObserversModel {
        registrations: without_observer(observers.registrations, id),
        ..observers
    };
    lemma_without_observer(observers.registrations, id);
    lemma_told_of(quiet.registrations, ancestors, record, id);
    let told = told_of(quiet.registrations, ancestors, record);
    lemma_telling_one(quiet, told, record, id);
}

/// Every observer that something has been recorded for is put down, but for those of a list.
pub open spec fn put_down(observers: ObserversModel, but: Seq<usize>) -> bool {
    forall|id: usize|
        id < observers.records.len() && #[trigger] observers.records[id as int].len() > 0
            ==> observers.pending.contains(id) || but.contains(id)
}

/// No change is forgotten: whoever is told of it is put down for delivery.
pub proof fn lemma_changes_are_put_down(
    observers: ObserversModel,
    ancestors: Seq<Option<usize>>,
    record: RecordModel,
    but: Seq<usize>,
)
    requires
        put_down(observers, but),
    ensures
        put_down(after_change(observers, ancestors, record), but),
{
    lemma_telling_puts_down(
        observers,
        told_of(observers.registrations, ancestors, record),
        record,
        but,
    );
}

proof fn lemma_telling_puts_down(
    observers: ObserversModel,
    told: Seq<(usize, bool)>,
    record: RecordModel,
    but: Seq<usize>,
)
    requires
        put_down(observers, but),
    ensures
        put_down(after_telling(observers, told, record), but),
    decreases told.len(),
{
    if told.len() > 0 {
        lemma_telling_puts_down(observers, told.drop_last(), record, but);
        let before = after_telling(observers, told.drop_last(), record);
        let after = after_telling(observers, told, record);
        let last = told.last().0;
        if last < before.records.len() {
            assert forall|id: usize|
                id < after.records.len() && #[trigger] after.records[id as int].len()
                    > 0 implies after.pending.contains(id) || but.contains(id) by {
                if id == last {
                    if !before.pending.contains(id) {
                        assert(after.pending[before.pending.len() as int] == id);
                    }
                } else {
                    assert(before.records[id as int].len() > 0);
                    if before.pending.contains(id) {
                        let k = choose|k: int|
                            0 <= k < before.pending.len() && before.pending[k] == id;
                        assert(after.pending[k] == id);
                    }
                }
            }
        }
    }
}

/// A delivery leaves nothing behind: while it goes on, whoever is neither put down anew nor still to
/// have a turn has taken all that was recorded.
pub proof fn lemma_delivery_reaches_everyone(observers: ObserversModel, turns: Seq<usize>)
    requires
        put_down(observers, turns),
        turns.len() > 0,
    ensures
        put_down(
            ObserversModel {
                records: if turns[0] < observers.records.len() {
                    observers.records.update(turns[0] as int, Seq::empty())
                } else {
                    observers.records
                },
                ..observers
            },
            turns.drop_first(),
        ),
{
    let first = turns[0];
    let after = ObserversModel {
        records: if first < observers.records.len() {
            observers.records.update(first as int, Seq::empty())
        } else {
            observers.records
        },
        ..observers
    };
    assert forall|id: usize|
        id < after.records.len() && #[trigger] after.records[id as int].len()
            > 0 implies after.pending.contains(id) || turns.drop_first().contains(id) by {
        assert(id != first);
        assert(observers.records[id as int].len() > 0);
        if turns.contains(id) {
            let k = choose|k: int| 0 <= k < turns.len() && turns[k] == id;
            assert(turns.drop_first()[k - 1] == id);
        }
    }
}

} // verus!
